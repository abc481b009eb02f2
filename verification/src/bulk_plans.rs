//! Finds the counting loops over a row that can be taken in bulk.

use vstd::prelude::*;
use crate::basic;
use crate::bulk_code::{self, LoopBody, RowLoop, Scalar};
use crate::bulk_laws;
use crate::dispatch;
use crate::fastpaths;
use crate::fault::{Failure, Trouble};
use crate::faults;
use crate::lookup;
use crate::memory::BytecodeStorage;
use crate::operand;
use crate::places;
use crate::program::{
    self, BulkArrayOperation, BulkLoopPlan, BytecodeGlobal, Instruction, LoopOperand, Opcode,
    ProgramGeneration,
};
use crate::state::{At, ExecutionPolicy, FiberModel, Outcome, VmModel};
use crate::value::{GenerationId, Place, SymbolKey, Val};

verus! {

/// A scalar operand: a variable alone, or its cell at a fixed index.
#[derive(Clone, Copy, PartialEq, Eq, Debug)]
pub struct Slot {
    pub key: SymbolKey,
    pub index: Option<i64>,
}

/// What a loop does in each round.
#[derive(PartialEq, Eq, Debug)]
pub struct Body {
    pub row: Slot,
    pub counter: Slot,
    pub target: SymbolKey,
    pub operation: BulkArrayOperation,
}

/// The variable of a plain access with so many indices.
pub open spec fn access(op: Instruction, opcode: Opcode, count: u16) -> Option<SymbolKey> {
    if op.opcode == opcode && op.payload@.len() > 18 && op.payload@[18] == 0 && operand::u16_at(
        op.payload@,
        16,
    ) == Ok::<u16, Failure>(count) {
        Some(faults::key_of(op.payload@))
    } else {
        None
    }
}

fn read_access(op: &Instruction, opcode: Opcode, count: u16) -> (r: Option<SymbolKey>)
    ensures
        r == access(*op, opcode, count),
{
    if op.opcode != opcode || op.payload.len() <= 18 || op.payload[18] != 0 {
        return None;
    }
    let payload = op.payload.as_slice();
    match operand::read_u16(payload, 16) {
        Ok(n) => {
            if n != count {
                return None;
            }
        },
        Err(_) => {
            return None;
        },
    }
    Some(faults::read_key(payload))
}

/// The integer that an instruction pushes.
pub open spec fn pushed(op: Instruction) -> Option<i64> {
    if op.opcode is PushInteger {
        match operand::i64_of(op.payload@) {
            Ok(n) => Some(n),
            Err(_) => None,
        }
    } else {
        None
    }
}

fn read_pushed(op: &Instruction) -> (r: Option<i64>)
    ensures
        r == pushed(*op),
{
    match op.opcode {
        Opcode::PushInteger => match operand::read_i64(op.payload.as_slice()) {
            Ok(n) => Some(n),
            Err(_) => None,
        },
        _ => None,
    }
}

/// Instructions that load a scalar operand.
pub open spec fn slot_length(s: Slot) -> int {
    if s.index is Some {
        2
    } else {
        1
    }
}

/// The scalar operand that the instructions from one on load.
pub open spec fn slot_at(code: Seq<Instruction>, i: int) -> Option<Slot> {
    if i >= code.len() {
        None
    } else {
        match access(code[i], Opcode::LoadVariable, 0) {
            Some(key) => Some(Slot { key, index: None }),
            None => match pushed(code[i]) {
                Some(c) => if c < 0 || i + 1 >= code.len() {
                    None
                } else {
                    match access(code[i + 1], Opcode::LoadVariable, 1) {
                        Some(key) => Some(Slot { key, index: Some(c) }),
                        None => None,
                    }
                },
                None => None,
            },
        }
    }
}

impl Slot {
    fn length(&self) -> (r: usize)
        ensures
            r == slot_length(*self),
    {
        match self.index {
            Some(_) => 2,
            None => 1,
        }
    }

    fn same(&self, other: &Slot) -> (r: bool)
        ensures
            r == (*self == *other),
    {
        let indices: bool = match (self.index, other.index) {
            (Some(a), Some(b)) => a == b,
            (None, None) => true,
            _ => false,
        };
        self.key == other.key && indices
    }

    /// The first index, which is zero where it is left out.
    fn first(&self) -> (r: i64)
        ensures
            r == slot_first(*self),
    {
        match self.index {
            Some(c) => c,
            None => 0,
        }
    }

    fn indices(&self) -> (r: Vec<u64>)
        requires
            self.index matches Some(c) ==> c >= 0,
        ensures
            r@ == slot_indices(*self),
    {
        match self.index {
            Some(c) => vec![c as u64],
            None => Vec::new(),
        }
    }
}

/// The first index, which is zero where it is left out.
pub open spec fn slot_first(s: Slot) -> i64 {
    match s.index {
        Some(c) => c,
        None => 0,
    }
}

pub open spec fn slot_indices(s: Slot) -> Seq<u64> {
    match s.index {
        Some(c) => seq![c as u64],
        None => Seq::empty(),
    }
}

fn read_slot(code: &Vec<Instruction>, i: usize) -> (r: Option<Slot>)
    ensures
        r == slot_at(code@, i as int),
        r matches Some(s) ==> i + slot_length(s) <= code.len(),
{
    if i >= code.len() {
        return None;
    }
    if let Some(key) = read_access(&code[i], Opcode::LoadVariable, 0) {
        return Some(Slot { key, index: None });
    }
    match read_pushed(&code[i]) {
        Some(c) => if c < 0 || code.len() - i <= 1 {
            None
        } else {
            match read_access(&code[i + 1], Opcode::LoadVariable, 1) {
                Some(key) => Some(Slot { key, index: Some(c) }),
                None => None,
            }
        },
        None => None,
    }
}

/// `.. = value` behind the operands of the target.
pub open spec fn fill_at(code: Seq<Instruction>, i: int, row: Slot, counter: Slot) -> Option<Body> {
    if i + 1 >= code.len() {
        None
    } else {
        match (pushed(code[i]), access(code[i + 1], Opcode::StoreVariable, 2)) {
            (Some(value), Some(target)) => Some(
                Body { row, counter, target, operation: BulkArrayOperation::Fill(value) },
            ),
            _ => None,
        }
    }
}

fn read_fill(code: &Vec<Instruction>, i: usize, row: Slot, counter: Slot) -> (r: Option<Body>)
    requires
        i <= code@.len(),
    ensures
        r == fill_at(code@, i as int, row, counter),
{
    if code.len() - i <= 1 {
        return None;
    }
    match (read_pushed(&code[i]), read_access(&code[i + 1], Opcode::StoreVariable, 2)) {
        (Some(value), Some(target)) => Some(
            Body { row, counter, target, operation: BulkArrayOperation::Fill(value) },
        ),
        _ => None,
    }
}

/// `..:(offset + counter) = source:row:counter` behind the row of the target.
pub open spec fn copy_at(code: Seq<Instruction>, i: int, row: Slot) -> Option<Body> {
    if i >= code.len() {
        None
    } else {
        match (pushed(code[i]), slot_at(code, i + 1)) {
            (Some(offset), Some(counter)) => {
                let m = i + 1 + slot_length(counter);
                let k = m + 1 + slot_length(row) + slot_length(counter);
                if k + 1 >= code.len() || !(code[m].opcode is Binary) || code[m].payload@
                    != seq![3u8] || slot_at(code, m + 1) != Some(row) || slot_at(
                    code,
                    m + 1 + slot_length(row),
                ) != Some(counter) {
                    None
                } else {
                    match (
                        access(code[k], Opcode::LoadVariable, 2),
                        access(code[k + 1], Opcode::StoreVariable, 2),
                    ) {
                        (Some(source), Some(target)) => Some(
                            Body {
                                row,
                                counter,
                                target,
                                operation: BulkArrayOperation::Copy { source, offset },
                            },
                        ),
                        _ => None,
                    }
                }
            },
            _ => None,
        }
    }
}

/// The operand is that of an addition.
fn adds(op: &Instruction) -> (r: bool)
    ensures
        r == (op.opcode is Binary && op.payload@ == seq![3u8]),
{
    let binary: bool = match op.opcode {
        Opcode::Binary => true,
        _ => false,
    };
    let r: bool = binary && op.payload.len() == 1 && op.payload[0] == 3;
    proof {
        if op.payload@.len() == 1 && op.payload@[0] == 3 {
            assert(op.payload@ =~= seq![3u8]);
        }
    }
    r
}

fn read_copy(code: &Vec<Instruction>, i: usize, row: Slot) -> (r: Option<Body>)
    requires
        i <= code@.len(),
    ensures
        r == copy_at(code@, i as int, row),
{
    let length: usize = code.len();
    if i >= length {
        return None;
    }
    let offset: i64 = match read_pushed(&code[i]) {
        Some(n) => n,
        None => {
            return None;
        },
    };
    let counter = match read_slot(code, i + 1) {
        Some(s) => s,
        None => {
            return None;
        },
    };
    let c: usize = counter.length();
    let r: usize = row.length();
    let left: usize = length - i;
    if left <= 3 + r + c + c {
        return None;
    }
    let m: usize = i + 1 + c;
    if !adds(&code[m]) {
        return None;
    }
    match read_slot(code, m + 1) {
        Some(s) => {
            if !s.same(&row) {
                return None;
            }
        },
        None => {
            return None;
        },
    }
    match read_slot(code, m + 1 + r) {
        Some(s) => {
            if !s.same(&counter) {
                return None;
            }
        },
        None => {
            return None;
        },
    }
    let k: usize = m + 1 + r + c;
    match (
        read_access(&code[k], Opcode::LoadVariable, 2),
        read_access(&code[k + 1], Opcode::StoreVariable, 2),
    ) {
        (Some(source), Some(target)) => Some(
            Body { row, counter, target, operation: BulkArrayOperation::Copy { source, offset } },
        ),
        _ => None,
    }
}

/// The body of a loop that begins at an instruction.
pub open spec fn body_at(code: Seq<Instruction>, i: int) -> Option<Body> {
    match slot_at(code, i) {
        None => None,
        Some(row) => {
            let j = i + slot_length(row);
            match slot_at(code, j) {
                Some(counter) => fill_at(code, j + slot_length(counter), row, counter),
                None => copy_at(code, j, row),
            }
        },
    }
}

fn read_body(code: &Vec<Instruction>, i: usize) -> (r: Option<Body>)
    ensures
        r == body_at(code@, i as int),
{
    match read_slot(code, i) {
        None => None,
        Some(row) => {
            let j: usize = i + row.length();
            match read_slot(code, j) {
                Some(counter) => read_fill(code, j + counter.length(), row, counter),
                None => read_copy(code, j, row),
            }
        },
    }
}

/// Instructions of a body.
pub open spec fn span(b: Body) -> int {
    let both = slot_length(b.row) + slot_length(b.counter);
    match b.operation {
        BulkArrayOperation::Fill(_) => both + 2,
        BulkArrayOperation::Copy { source, offset } => both + both + 4,
    }
}

/// Operands that a body holds at once.
pub open spec fn peak(b: Body) -> usize {
    match b.operation {
        BulkArrayOperation::Fill(_) => 3,
        BulkArrayOperation::Copy { source, offset } => 4,
    }
}

/// A jump to an instruction that enters and leaves no block.
pub open spec fn goes(
    program: ProgramGeneration,
    function: SymbolKey,
    code: Seq<Instruction>,
    from: int,
    opcode: Opcode,
    to: int,
) -> bool {
    &&& code[from].opcode == opcode
    &&& operand::u32_at(code[from].payload@, 0) matches Ok(t) && t == to
    &&& fastpaths::transition_of(program, function, from as usize, to as usize) is None
}

fn goes_to(
    program: &ProgramGeneration,
    function: SymbolKey,
    code: &Vec<Instruction>,
    from: usize,
    opcode: Opcode,
    to: usize,
) -> (r: bool)
    requires
        from < code@.len(),
    ensures
        r == goes(*program, function, code@, from as int, opcode, to as int),
{
    let op = &code[from];
    if op.opcode != opcode {
        return false;
    }
    match operand::read_u32(op.payload.as_slice(), 0) {
        Ok(t) => {
            if t as usize != to {
                return false;
            }
        },
        Err(_) => {
            return false;
        },
    }
    program.structured_jump_transition(function, from, to).is_none()
}

/// A variable that holds rows.
pub open spec fn holds_rows(g: BytecodeGlobal) -> bool {
    match g.storage {
        BytecodeStorage::FunctionLocal => false,
        BytecodeStorage::Character => g.dimensions@.len() == 1,
        _ => true,
    }
}

fn has_rows(g: &BytecodeGlobal) -> (r: bool)
    ensures
        r == holds_rows(*g),
{
    match g.storage {
        BytecodeStorage::FunctionLocal => false,
        BytecodeStorage::Character => g.dimensions.len() == 1,
        _ => true,
    }
}

/// A variable that belongs to no character.
pub open spec fn shared_scalar(program: ProgramGeneration, key: SymbolKey) -> bool {
    program.spec_global(key) matches Some(g) && !(g.storage is Character)
}

fn is_shared_scalar(program: &ProgramGeneration, key: SymbolKey) -> (r: bool)
    ensures
        r == shared_scalar(*program, key),
{
    match program.global(key) {
        Some(g) => match g.storage {
            BytecodeStorage::Character => false,
            _ => true,
        },
        None => false,
    }
}

/// No round changes what a later round reads, but for the counter; a part of a character's row is
/// only ever cleared.
pub open spec fn apart(program: ProgramGeneration, b: Body) -> bool {
    &&& shared_scalar(program, b.row.key)
    &&& shared_scalar(program, b.counter.key)
    &&& b.target != b.row.key
    &&& b.target != b.counter.key
    &&& b.row.key == b.counter.key ==> slot_first(b.row) != slot_first(b.counter)
    &&& program.spec_global(b.target) matches Some(g) && holds_rows(*g) && match b.operation {
        BulkArrayOperation::Fill(value) => g.storage is Character ==> value == 0,
        BulkArrayOperation::Copy { source, offset } => {
            &&& source != b.target
            &&& source != b.counter.key
            &&& program.spec_global(source) matches Some(s) && holds_rows(*s)
        },
    }
}

fn is_apart(program: &ProgramGeneration, b: &Body) -> (r: bool)
    ensures
        r == apart(*program, *b),
{
    if !is_shared_scalar(program, b.row.key) || !is_shared_scalar(program, b.counter.key)
        || b.target == b.row.key || b.target == b.counter.key || (b.row.key == b.counter.key
        && b.row.first() == b.counter.first()) {
        return false;
    }
    match program.global(b.target) {
        None => false,
        Some(g) => {
            if !has_rows(g) {
                return false;
            }
            match &b.operation {
                BulkArrayOperation::Fill(value) => match g.storage {
                    BytecodeStorage::Character => *value == 0,
                    _ => true,
                },
                BulkArrayOperation::Copy { source, offset: _ } => {
                    if *source == b.target || *source == b.counter.key {
                        return false;
                    }
                    match program.global(*source) {
                        Some(s) => has_rows(s),
                        None => false,
                    }
                },
            }
        },
    }
}

/// The body of the loop that begins at an instruction, where it can be taken in bulk.
pub open spec fn fold_at(
    program: ProgramGeneration,
    function: SymbolKey,
    code: Seq<Instruction>,
    p: int,
) -> Option<Body> {
    if p >= code.len() || !(code[p].opcode is ForStart) {
        None
    } else {
        match body_at(code, p + 2) {
            None => None,
            Some(b) => {
                let q = p + 2 + span(b);
                if q + 3 < code.len() && goes(
                    program,
                    function,
                    code,
                    p + 1,
                    Opcode::JumpIfFalse,
                    q + 3,
                ) && code[q].opcode is ForNext && goes(
                    program,
                    function,
                    code,
                    q + 1,
                    Opcode::JumpIfFalse,
                    q + 3,
                ) && goes(program, function, code, q + 2, Opcode::Jump, p + 2) && code[q
                    + 3].opcode is Nop && apart(program, b) {
                    Some(b)
                } else {
                    None
                }
            },
        }
    }
}

/// The body of the loop of a function that can be taken in bulk from an instruction on.
pub open spec fn foldable(
    program: ProgramGeneration,
    function: SymbolKey,
    instruction: usize,
) -> Option<Body> {
    match program.spec_function(function) {
        None => None,
        Some(f) => fold_at(program, function, f.code@, instruction as int),
    }
}

/// The plan of a loop.
pub open spec fn plan_of(
    plan: BulkLoopPlan,
    function: SymbolKey,
    instruction: usize,
    b: Body,
) -> bool {
    &&& plan.function == function
    &&& plan.instruction == instruction
    &&& plan.counter == b.counter.key
    &&& plan.counter_indices@ == slot_indices(b.counter)
    &&& plan.prefix.variable == b.row.key
    &&& plan.prefix.indices@ == slot_indices(b.row)
    &&& plan.target == b.target
    &&& plan.operation == b.operation
    &&& plan.iteration_instructions == span(b) + 3
    &&& plan.stack_peak == peak(b)
    &&& plan.after_loop == instruction + span(b) + 6
}

proof fn lemma_body(code: Seq<Instruction>, i: int)
    requires
        0 <= i,
        body_at(code, i) is Some,
    ensures
        ({
            let b = body_at(code, i)->0;
            &&& i + span(b) <= code.len()
            &&& b.row.index matches Some(c) ==> c >= 0
            &&& b.counter.index matches Some(c) ==> c >= 0
            &&& slot_at(code, i) == Some(b.row)
        }),
{
}

fn is_nop(op: &Instruction) -> (r: bool)
    ensures
        r == op.opcode is Nop,
{
    match op.opcode {
        Opcode::Nop => true,
        _ => false,
    }
}

fn is_next(op: &Instruction) -> (r: bool)
    ensures
        r == op.opcode is ForNext,
{
    match op.opcode {
        Opcode::ForNext => true,
        _ => false,
    }
}

fn is_start(op: &Instruction) -> (r: bool)
    ensures
        r == op.opcode is ForStart,
{
    match op.opcode {
        Opcode::ForStart => true,
        _ => false,
    }
}

impl ProgramGeneration {
    /// The plan of the loop that begins at an instruction, where it can be taken in bulk.
    pub fn bulk_loop_at(&self, function: SymbolKey, instruction: usize) -> (r: Option<BulkLoopPlan>)
        ensures
            match r {
                Some(plan) => foldable(*self, function, instruction) matches Some(b) && plan_of(
                    plan,
                    function,
                    instruction,
                    b,
                ),
                None => foldable(*self, function, instruction) is None,
            },
    {
        let code = match self.function(function) {
            Some(f) => &f.code,
            None => {
                return None;
            },
        };
        let length: usize = code.len();
        let p: usize = instruction;
        if p >= length || !is_start(&code[p]) {
            return None;
        }
        if length - p <= 2 {
            proof {
                assert(slot_at(code@, p + 2) is None);
            }
            return None;
        }
        let b = match read_body(code, p + 2) {
            Some(b) => b,
            None => {
                return None;
            },
        };
        proof {
            lemma_body(code@, p + 2);
        }
        let both: usize = b.row.length() + b.counter.length();
        let (spanned, peaked): (usize, usize) = match b.operation {
            BulkArrayOperation::Fill(_) => (both + 2, 3),
            BulkArrayOperation::Copy { source: _, offset: _ } => (both + both + 4, 4),
        };
        let q: usize = p + 2 + spanned;
        if length - q <= 3 || !is_next(&code[q]) || !is_nop(&code[q + 3]) {
            return None;
        }
        if !goes_to(self, function, code, p + 1, Opcode::JumpIfFalse, q + 3) || !goes_to(
            self,
            function,
            code,
            q + 1,
            Opcode::JumpIfFalse,
            q + 3,
        ) || !goes_to(self, function, code, q + 2, Opcode::Jump, p + 2) {
            return None;
        }
        if !is_apart(self, &b) {
            return None;
        }
        Some(
            BulkLoopPlan {
                function,
                instruction,
                counter: b.counter.key,
                counter_indices: b.counter.indices(),
                prefix: LoopOperand { variable: b.row.key, indices: b.row.indices() },
                target: b.target,
                operation: b.operation,
                iteration_instructions: spanned as u64 + 3,
                stack_peak: peaked,
                after_loop: q + 4,
            },
        )
    }

    /// The plans of all loops that can be taken in bulk.
    pub fn find_bulk_loops(&self) -> (r: Vec<BulkLoopPlan>)
        ensures
            complete(*self, r@),
    {
        let mut found: Vec<BulkLoopPlan> = Vec::new();
        let mut i: usize = 0;
        while i < self.functions.len()
            invariant
                i <= self.functions.len(),
                sound(*self, found@),
                forall|a: int, n: usize|
                    0 <= a < i && n < (#[trigger] self.functions@[a]).code@.len()
                        && #[trigger] foldable(*self, self.functions@[a].key, n) is Some ==> listed(
                        found@,
                        self.functions@[a].key,
                        n,
                    ),
            decreases self.functions.len() - i,
        {
            let f = &self.functions[i];
            let mut j: usize = 0;
            while j < f.code.len()
                invariant
                    i < self.functions.len(),
                    *f == self.functions@[i as int],
                    j <= f.code.len(),
                    sound(*self, found@),
                    forall|a: int, n: usize|
                        0 <= a < i && n < (#[trigger] self.functions@[a]).code@.len()
                            && #[trigger] foldable(*self, self.functions@[a].key, n) is Some
                            ==> listed(found@, self.functions@[a].key, n),
                    forall|n: usize|
                        n < j && #[trigger] foldable(*self, f.key, n) is Some ==> listed(
                            found@,
                            f.key,
                            n,
                        ),
                decreases f.code.len() - j,
            {
                let ghost before = found@;
                if let Some(plan) = self.bulk_loop_at(f.key, j) {
                    found.push(plan);
                    proof {
                        lemma_listed_push(before, plan);
                    }
                }
                j = j + 1;
            }
            i = i + 1;
        }
        proof {
            assert forall|function: SymbolKey, n: usize| #[trigger]
                foldable(*self, function, n) is Some implies listed(found@, function, n) by {
                lookup::lemma_first_index(self.functions@, program::function_key(function));
                let a = lookup::first_index(self.functions@, program::function_key(function))->0;
                assert(self.functions@[a].key == function);
            }
        }
        found
    }
}

/// A plan for the loop at an instruction is among these.
pub open spec fn listed(plans: Seq<BulkLoopPlan>, function: SymbolKey, instruction: usize) -> bool {
    exists|k: int|
        0 <= k < plans.len() && fastpaths::loop_at(function, instruction)(#[trigger] plans[k])
}

/// Every plan is that of a loop that can be taken in bulk.
pub open spec fn sound(program: ProgramGeneration, plans: Seq<BulkLoopPlan>) -> bool {
    forall|k: int|
        0 <= k < plans.len() ==> {
            let plan = #[trigger] plans[k];
            foldable(program, plan.function, plan.instruction) matches Some(b) && plan_of(
                plan,
                plan.function,
                plan.instruction,
                b,
            )
        }
}

/// The plans are those of the loops that can be taken in bulk.
pub open spec fn complete(program: ProgramGeneration, plans: Seq<BulkLoopPlan>) -> bool {
    &&& sound(program, plans)
    &&& forall|function: SymbolKey, n: usize| #[trigger]
        foldable(program, function, n) is Some ==> listed(plans, function, n)
}

proof fn lemma_listed_push(plans: Seq<BulkLoopPlan>, plan: BulkLoopPlan)
    ensures
        forall|function: SymbolKey, n: usize|
            listed(plans, function, n) ==> #[trigger] listed(plans.push(plan), function, n),
        listed(plans.push(plan), plan.function, plan.instruction),
{
    let after = plans.push(plan);
    assert forall|function: SymbolKey, n: usize| listed(plans, function, n) implies #[trigger] listed(
        after,
        function,
        n,
    ) by {
        let k = choose|k: int|
            0 <= k < plans.len() && fastpaths::loop_at(function, n)(#[trigger] plans[k]);
        assert(fastpaths::loop_at(function, n)(after[k]));
    }
    assert(fastpaths::loop_at(plan.function, plan.instruction)(after[plans.len() as int]));
}

/// A program that holds the plans that are found in it takes just the loops in bulk that can be,
/// but for those that involve a reference, and each by its own plan.
pub proof fn law_found_loops_are_planned(
    program: ProgramGeneration,
    function: SymbolKey,
    instruction: usize,
)
    requires
        complete(program, program.bulk_loops@),
    ensures
        match fastpaths::bulk_plan(program, function, instruction) {
            Some(plan) => fastpaths::plan_is_direct(program, plan) && (foldable(
                program,
                function,
                instruction,
            ) matches Some(b) && plan_of(plan, function, instruction, b)),
            None => foldable(program, function, instruction) matches Some(b) ==> exists|
                plan: BulkLoopPlan,
            | #[trigger]
                plan_of(plan, function, instruction, b) && !fastpaths::plan_is_direct(
                    program,
                    plan,
                ),
        },
{
    let p = fastpaths::loop_at(function, instruction);
    lookup::lemma_first_index(program.bulk_loops@, p);
    if let Some(b) = foldable(program, function, instruction) {
        assert(listed(program.bulk_loops@, function, instruction));
        if let Some(i) = lookup::first_index(program.bulk_loops@, p) {
            let plan = program.bulk_loops@[i];
            assert(plan_of(plan, function, instruction, b));
        }
    }
}

/// The variable that an instruction names.
pub open spec fn variable_of(program: ProgramGeneration, op: Instruction) -> Option<BytecodeGlobal> {
    match op.opcode {
        Opcode::LoadVariable | Opcode::StoreVariable | Opcode::MakePlace => if op.payload@.len()
            >= 16 {
            match program.spec_global(faults::key_of(op.payload@)) {
                Some(g) => Some(*g),
                None => None,
            }
        } else {
            None
        },
        _ => None,
    }
}

/// The instructions of a function as they are executed.
pub open spec fn code_of(
    program: ProgramGeneration,
    generation: GenerationId,
    function: SymbolKey,
) -> Seq<At> {
    let code = program.spec_function(function)->0.code@;
    Seq::new(
        code.len(),
        |i: int|
            At {
                generation,
                function,
                instruction: i as usize,
                variable: variable_of(program, code[i]),
                opcode: code[i].opcode,
                payload: code[i].payload@,
            },
    )
}

/// A scalar operand with its variable.
pub open spec fn scalar_of(program: ProgramGeneration, s: Slot) -> Scalar {
    Scalar { variable: *program.spec_global(s.key)->0, index: s.index }
}

/// The loop at an instruction with its variables.
pub open spec fn loop_of(
    program: ProgramGeneration,
    generation: GenerationId,
    function: SymbolKey,
    begin: usize,
    b: Body,
) -> RowLoop {
    RowLoop {
        code: code_of(program, generation, function),
        begin,
        row: scalar_of(program, b.row),
        counter: scalar_of(program, b.counter),
        target: *program.spec_global(b.target)->0,
        body: match b.operation {
            BulkArrayOperation::Fill(value) => LoopBody::Fill(value),
            BulkArrayOperation::Copy { source, offset } => LoopBody::Copy {
                source: *program.spec_global(source)->0,
                offset,
            },
        },
    }
}

proof fn lemma_slot_loads(
    program: ProgramGeneration,
    generation: GenerationId,
    function: SymbolKey,
    i: int,
    s: Slot,
)
    requires
        program.spec_function(function) is Some,
        0 <= i,
        slot_at(program.spec_function(function)->0.code@, i) == Some(s),
        shared_scalar(program, s.key),
    ensures
        bulk_code::loads(code_of(program, generation, function), i, scalar_of(program, s)),
        bulk_code::plain_scalar(scalar_of(program, s)),
        i + slot_length(s) <= program.spec_function(function)->0.code@.len(),
{
    let code = program.spec_function(function)->0.code@;
    let ats = code_of(program, generation, function);
    assert(ats[i].payload == code[i].payload@);
    if s.index is Some {
        assert(ats[i + 1].payload == code[i + 1].payload@);
    }
}

/// A loop that can be taken in bulk has the code of a loop over a row.
proof fn lemma_found_code(
    vm: VmModel,
    program: ProgramGeneration,
    generation: GenerationId,
    function: SymbolKey,
    begin: usize,
    b: Body,
)
    requires
        vm.program(generation) == Some(program),
        foldable(program, function, begin) == Some(b),
    ensures
        bulk_code::row_loop(vm, loop_of(program, generation, function, begin, b)),
        bulk_code::body_length(loop_of(program, generation, function, begin, b)) == span(b),
{
    let l = loop_of(program, generation, function, begin, b);
    let f = program.spec_function(function)->0;
    let code = f.code@;
    assert(code.len() == f.code.len());
    lemma_body(code, begin + 2);
    let i = begin + 2;
    let r = slot_length(b.row);
    let c = slot_length(b.counter);
    lemma_slot_loads(program, generation, function, i, b.row);
    match b.operation {
        BulkArrayOperation::Fill(value) => {
            lemma_slot_loads(program, generation, function, i + r, b.counter);
            assert(l.code[i + r + c].payload == code[i + r + c].payload@);
            assert(l.code[i + r + c + 1].payload == code[i + r + c + 1].payload@);
        },
        BulkArrayOperation::Copy { source, offset } => {
            let j = i + r + c + 2;
            assert(l.code[i + r].payload == code[i + r].payload@);
            lemma_slot_loads(program, generation, function, i + r + 1, b.counter);
            assert(l.code[j - 1].payload == code[j - 1].payload@);
            lemma_slot_loads(program, generation, function, j, b.row);
            lemma_slot_loads(program, generation, function, j + r, b.counter);
            assert(l.code[j + r + c].payload == code[j + r + c].payload@);
            assert(l.code[j + r + c + 1].payload == code[j + r + c + 1].payload@);
        },
    }
    assert(bulk_code::body_code(l));
}

/// A loop that is found in the code of a function leaves the machine and the fiber, counted jumps
/// included, the same whether it is taken in bulk or its instructions are executed one by one, and
/// it counts as many instructions.
pub proof fn law_found_loop_is_its_code(
    vm: VmModel,
    fiber: FiberModel,
    function: SymbolKey,
    policy: ExecutionPolicy,
    base: Seq<Val>,
    counter: Place,
    start: i64,
    end: i64,
)
    requires
        places::machine_sized(vm, fiber),
        fiber.frames.len() > 0,
        fiber.top().stack == bulk_code::loop_operands(base, counter, start, end),
        ({
            let begin = fiber.top().instruction;
            let generation = fiber.top().generation;
            let program = vm.program(generation)->0;
            let b = foldable(program, function, begin)->0;
            &&& vm.program(generation) is Some
            &&& foldable(program, function, begin) is Some
            &&& fastpaths::bulk_plan(program, function, begin) matches Some(plan) && plan_of(
                plan,
                function,
                begin,
                b,
            )
            &&& counter.frame == fastpaths::own_frame(
                *program.spec_global(b.counter.key)->0,
                fiber.top().id,
            )
            &&& (span(b) + 3) * (end - start) + 2 <= u64::MAX
            &&& dispatch::executed(
                vm,
                fiber,
                code_of(program, generation, function)[begin as int],
                policy,
            ).2 matches Ok(Some(Outcome::BulkProgress(_)))
        }),
    ensures
        ({
            let begin = fiber.top().instruction;
            let generation = fiber.top().generation;
            let code = code_of(vm.program(generation)->0, generation, function);
            let taken = dispatch::executed(vm, fiber, code[begin as int], policy);
            let more = taken.2->Ok_0->0->BulkProgress_0;
            bulk_code::run(code, bulk_code::plain(policy), vm, fiber, (1 + more) as nat) == Some(
                (taken.0, taken.1),
            )
        }),
{
    let begin = fiber.top().instruction;
    let generation = fiber.top().generation;
    let program = vm.program(generation)->0;
    let b = foldable(program, function, begin)->0;
    let plan = fastpaths::bulk_plan(program, function, begin)->0;
    let l = loop_of(program, generation, function, begin, b);
    lemma_found_code(vm, program, generation, function, begin, b);
    lemma_body(program.spec_function(function)->0.code@, begin + 2);
    assert(program.spec_global(plan.target) == Some(&l.target));
    assert(program.spec_global(plan.counter) == Some(&l.counter.variable));
    assert(program.spec_global(plan.prefix.variable) == Some(&l.row.variable));
    assert(bulk_code::operates(program, plan, l));
    assert(bulk_code::planned(program, plan, l));
    bulk_code::law_bulk_loop_is_its_code(vm, fiber, l, policy, base, counter, start, end);
}

/// Trying to take a loop in bulk changes nothing where it is not taken.
pub proof fn law_loop_not_taken_changes_nothing(
    vm: VmModel,
    fiber: FiberModel,
    generation: GenerationId,
    function: SymbolKey,
    instruction: usize,
    counter: Place,
    start: i64,
    end: i64,
    step: i64,
    policy: ExecutionPolicy,
)
    requires
        fastpaths::bulk_loop(
            vm,
            fiber,
            generation,
            function,
            instruction,
            counter,
            start,
            end,
            step,
            policy,
        ).2 == Ok::<Option<u64>, Failure>(None),
    ensures
        ({
            let tried = fastpaths::bulk_loop(
                vm,
                fiber,
                generation,
                function,
                instruction,
                counter,
                start,
                end,
                step,
                policy,
            );
            tried.0 == vm && tried.1 == fiber
        }),
{
}

/// The machine and the fiber once a loop has popped its operands and set its counter.
pub open spec fn counter_set(
    vm: VmModel,
    fiber: FiberModel,
    base: Seq<Val>,
    counter: Place,
    start: i64,
) -> Result<bulk_laws::Pair, Trouble> {
    places::write_place(
        vm,
        dispatch::counted(fiber).with_stack(base),
        counter,
        Val::Integer(start),
    )
}

/// A loop of a function that was found in its code is about to be entered.
pub open spec fn at_loop(
    vm: VmModel,
    fiber: FiberModel,
    function: SymbolKey,
    base: Seq<Val>,
    counter: Place,
    start: i64,
    end: i64,
) -> bool {
    let begin = fiber.top().instruction;
    let program = vm.program(fiber.top().generation)->0;
    let b = foldable(program, function, begin)->0;
    &&& places::machine_sized(vm, fiber)
    &&& fiber.frames.len() > 0
    &&& fiber.top().stack == bulk_code::loop_operands(base, counter, start, end)
    &&& vm.program(fiber.top().generation) is Some
    &&& foldable(program, function, begin) is Some
    &&& fastpaths::bulk_plan(program, function, begin) matches Some(plan) && plan_of(
        plan,
        function,
        begin,
        b,
    )
    &&& counter.frame == fastpaths::own_frame(
        *program.spec_global(b.counter.key)->0,
        fiber.top().id,
    )
    &&& (span(b) + 3) * (end - start) + 2 <= u64::MAX
}

/// A loop that is taken in bulk at the cost of so many more instructions leaves what that many
/// instructions and one more leave, each executed for itself.
pub proof fn law_taken_loop_is_its_code(
    vm: VmModel,
    fiber: FiberModel,
    function: SymbolKey,
    policy: ExecutionPolicy,
    base: Seq<Val>,
    counter: Place,
    start: i64,
    end: i64,
)
    requires
        at_loop(vm, fiber, function, base, counter, start, end),
        start < end,
        counter_set(vm, fiber, base, counter, start) matches Ok(set) && fastpaths::bulk_loop(
            set.0,
            set.1,
            fiber.top().generation,
            function,
            fiber.top().instruction,
            counter,
            start,
            end,
            1,
            policy,
        ).2 matches Ok(Some(_)),
    ensures
        ({
            let set = counter_set(vm, fiber, base, counter, start)->Ok_0;
            let generation = fiber.top().generation;
            let taken = fastpaths::bulk_loop(
                set.0,
                set.1,
                generation,
                function,
                fiber.top().instruction,
                counter,
                start,
                end,
                1,
                policy,
            );
            let code = code_of(vm.program(generation)->0, generation, function);
            let more = taken.2->Ok_0->0;
            bulk_code::run(code, bulk_code::plain(policy), vm, fiber, (more + 1) as nat) == Some(
                (taken.0, taken.1),
            )
        }),
{
    let begin = fiber.top().instruction;
    let generation = fiber.top().generation;
    let program = vm.program(generation)->0;
    let code = code_of(program, generation, function);
    let at = code[begin as int];
    bulk_code::lemma_operands(base, counter, start, end);
    let counted = dispatch::counted(fiber);
    assert(counted.top().stack == fiber.top().stack);
    let set = counter_set(vm, fiber, base, counter, start)->Ok_0;
    let taken = fastpaths::bulk_loop(
        set.0,
        set.1,
        generation,
        function,
        begin,
        counter,
        start,
        end,
        1,
        policy,
    );
    assert(at.opcode is ForStart);
    let step = basic::for_start_step(vm, counted, at, policy);
    assert(step.0 == taken.0 && step.1 == taken.1);
    assert(step.2 == Ok::<Outcome, Failure>(Outcome::BulkProgress(taken.2->Ok_0->0)));
    lemma_taken_fits(vm, fiber, function, policy, base, counter, start, end);
    assert(dispatch::executed(vm, fiber, at, policy) == (
        taken.0,
        taken.1,
        Ok::<Option<Outcome>, Failure>(Some(Outcome::BulkProgress(taken.2->Ok_0->0))),
    ));
    law_found_loop_is_its_code(vm, fiber, function, policy, base, counter, start, end);
}

/// A loop that is taken in bulk leaves no more operands than the limit allows.
proof fn lemma_taken_fits(
    vm: VmModel,
    fiber: FiberModel,
    function: SymbolKey,
    policy: ExecutionPolicy,
    base: Seq<Val>,
    counter: Place,
    start: i64,
    end: i64,
)
    requires
        at_loop(vm, fiber, function, base, counter, start, end),
        start < end,
        counter_set(vm, fiber, base, counter, start) matches Ok(set) && fastpaths::bulk_loop(
            set.0,
            set.1,
            fiber.top().generation,
            function,
            fiber.top().instruction,
            counter,
            start,
            end,
            1,
            policy,
        ).2 matches Ok(Some(_)),
    ensures
        ({
            let set = counter_set(vm, fiber, base, counter, start)->Ok_0;
            let taken = fastpaths::bulk_loop(
                set.0,
                set.1,
                fiber.top().generation,
                function,
                fiber.top().instruction,
                counter,
                start,
                end,
                1,
                policy,
            );
            dispatch::within_limit(taken.0, taken.1)
        }),
{
    let generation = fiber.top().generation;
    let begin = fiber.top().instruction;
    let popped = dispatch::counted(fiber).with_stack(base);
    let set = counter_set(vm, fiber, base, counter, start)->Ok_0;
    assert(places::machine_sized(vm, popped));
    places::law_write_keeps_frames(vm, popped, counter, Val::Integer(start));
    let taken = fastpaths::bulk_loop(
        set.0,
        set.1,
        generation,
        function,
        begin,
        counter,
        start,
        end,
        1,
        policy,
    );
    let w = bulk_code::Work {
        stack: base,
        instruction: begin,
        loops: popped.top().for_loops,
        backward: popped.backward,
    };
    let address = places::place_address(vm, popped, counter)->Ok_0;
    bulk_code::lemma_dressed_write(vm, popped, w, address, counter.indices, Val::Integer(start));
    let program = vm.program(generation)->0;
    let plan = fastpaths::bulk_plan(program, function, begin)->0;
    let row = places::read_at(
        set.0.store,
        set.1.frames,
        places::variable_address(
            *program.spec_global(plan.prefix.variable)->0,
            None,
            fastpaths::own_frame(
                *program.spec_global(plan.prefix.variable)->0,
                set.1.top().id,
            ),
        ),
        plan.prefix.indices@,
    )->Ok_0->Integer_0;
    let a = bulk_laws::lemma_bulk_arena(
        set.0,
        set.1,
        generation,
        function,
        begin,
        counter,
        start,
        end,
        1,
        policy,
        row,
    );
    bulk_laws::lemma_state_after(
        set.0,
        set.1,
        program,
        plan,
        row,
        counter,
        start as int,
        end as int,
        end as int,
        a,
    );
}

/// Where no loop is taken in bulk, and trying to do so does not fail, an instruction leaves and
/// answers the same, failures included, as it does without bulk loops.
pub proof fn law_policy_matters_for_loops_alone(
    vm: VmModel,
    fiber: FiberModel,
    at: At,
    policy: ExecutionPolicy,
    other: ExecutionPolicy,
)
    requires
        !other.allow_function_memo,
        !bulk_tried(vm, fiber, at, policy),
    ensures
        dispatch::executed(vm, fiber, at, policy) == dispatch::executed(vm, fiber, at, other),
{
}

/// An instruction takes its loop in bulk, or fails to.
pub open spec fn bulk_tried(vm: VmModel, fiber: FiberModel, at: At, policy: ExecutionPolicy) -> bool {
    let counted = dispatch::counted(fiber);
    let operands = basic::for_operands(counted.top().stack);
    &&& at.opcode is ForStart
    &&& operands.1 matches Ok((counter, start, end, step)) && basic::runs(start, end, step) && (
    places::write_place(
        vm,
        counted.with_stack(operands.0),
        counter,
        Val::Integer(start),
    ) matches Ok((v, f)) && fastpaths::bulk_loop(
        v,
        f,
        at.generation,
        at.function,
        at.instruction,
        counter,
        start,
        end,
        step,
        policy,
    ).2 != Ok::<Option<u64>, Failure>(None))
}

/// What so many dispatches leave while a function runs, each under a policy of its own, and the
/// instructions that they count; nothing where one of them does not go on.
pub open spec fn dispatches(
    code: Seq<At>,
    policies: Seq<ExecutionPolicy>,
    vm: VmModel,
    fiber: FiberModel,
) -> Option<(VmModel, FiberModel, nat)>
    decreases policies.len(),
{
    if policies.len() == 0 {
        Some((vm, fiber, 0))
    } else if fiber.frames.len() == 0 || fiber.top().instruction >= code.len() {
        None
    } else {
        let after = dispatch::executed(
            vm,
            fiber,
            code[fiber.top().instruction as int],
            policies[0],
        );
        match after.2 {
            Ok(Some(Outcome::Continue)) => counted_more(
                dispatches(code, policies.skip(1), after.0, after.1),
                1,
            ),
            Ok(Some(Outcome::BulkProgress(n))) => counted_more(
                dispatches(code, policies.skip(1), after.0, after.1),
                (n + 1) as nat,
            ),
            _ => None,
        }
    }
}

pub open spec fn counted_more(r: Option<(VmModel, FiberModel, nat)>, n: nat) -> Option<
    (VmModel, FiberModel, nat),
> {
    match r {
        Some((vm, fiber, k)) => Some((vm, fiber, k + n)),
        None => None,
    }
}

/// Every loop that these dispatches take in bulk was found in the code of the running function.
pub open spec fn loops_found(
    code: Seq<At>,
    policies: Seq<ExecutionPolicy>,
    vm: VmModel,
    fiber: FiberModel,
    function: SymbolKey,
) -> bool
    decreases policies.len(),
{
    if policies.len() == 0 || fiber.frames.len() == 0 || fiber.top().instruction >= code.len() {
        true
    } else {
        let at = code[fiber.top().instruction as int];
        let after = dispatch::executed(vm, fiber, at, policies[0]);
        &&& after.2 matches Ok(Some(Outcome::BulkProgress(_))) ==> {
            &&& code == code_of(
                vm.program(fiber.top().generation)->0,
                fiber.top().generation,
                function,
            )
            &&& exists|base: Seq<Val>, counter: Place, start: i64, end: i64|
                #[trigger] at_loop(vm, fiber, function, base, counter, start, end)
        }
        &&& loops_found(code, policies.skip(1), after.0, after.1, function)
    }
}

proof fn lemma_runs_join(
    code: Seq<At>,
    policy: ExecutionPolicy,
    vm: VmModel,
    fiber: FiberModel,
    a: nat,
    b: nat,
    after: bulk_laws::Pair,
)
    requires
        bulk_code::run(code, policy, vm, fiber, a) == Some(after),
    ensures
        bulk_code::run(code, policy, vm, fiber, a + b) == bulk_code::run(
            code,
            policy,
            after.0,
            after.1,
            b,
        ),
    decreases a,
{
    if a > 0 {
        let (v, f) = bulk_code::next(code, policy, vm, fiber)->0;
        lemma_runs_join(code, policy, v, f, (a - 1) as nat, b, after);
    }
}

/// A run of a function that takes loops in bulk leaves the machine and the fiber as they are after
/// the same number of instructions without bulk loops. The budget of each dispatch may be any.
pub proof fn law_bulk_run_is_the_plain_run(
    code: Seq<At>,
    policies: Seq<ExecutionPolicy>,
    vm: VmModel,
    fiber: FiberModel,
    function: SymbolKey,
    scalar: ExecutionPolicy,
)
    requires
        !scalar.allow_function_memo,
        dispatches(code, policies, vm, fiber) is Some,
        loops_found(code, policies, vm, fiber, function),
    ensures
        ({
            let (v, f, n) = dispatches(code, policies, vm, fiber)->0;
            bulk_code::run(code, scalar, vm, fiber, n) == Some((v, f))
        }),
    decreases policies.len(),
{
    if policies.len() > 0 {
        let at = code[fiber.top().instruction as int];
        let after = dispatch::executed(vm, fiber, at, policies[0]);
        law_bulk_run_is_the_plain_run(
            code,
            policies.skip(1),
            after.0,
            after.1,
            function,
            scalar,
        );
        let (v, f, k) = dispatches(code, policies.skip(1), after.0, after.1)->0;
        match after.2 {
            Ok(Some(Outcome::BulkProgress(n))) => {
                let (base, counter, start, end) = choose|
                    base: Seq<Val>,
                    counter: Place,
                    start: i64,
                    end: i64,
                | #[trigger]
                    at_loop(vm, fiber, function, base, counter, start, end);
                law_found_loop_is_its_code(
                    vm,
                    fiber,
                    function,
                    policies[0],
                    base,
                    counter,
                    start,
                    end,
                );
                lemma_plain_runs_agree(
                    code,
                    bulk_code::plain(policies[0]),
                    scalar,
                    vm,
                    fiber,
                    (1 + n) as nat,
                );
                lemma_runs_join(code, scalar, vm, fiber, (1 + n) as nat, k, (after.0, after.1));
            },
            _ => {
                lemma_continue_is_plain(vm, fiber, at, policies[0]);
                law_policy_matters_for_loops_alone(vm, fiber, at, policies[0], scalar);
                reveal(bulk_code::next);
            },
        }
    }
}

/// An instruction that just goes on took no loop in bulk.
proof fn lemma_continue_is_plain(vm: VmModel, fiber: FiberModel, at: At, policy: ExecutionPolicy)
    requires
        fiber.frames.len() > 0,
        dispatch::executed(vm, fiber, at, policy).2 == Ok::<Option<Outcome>, Failure>(
            Some(Outcome::Continue),
        ),
    ensures
        !bulk_tried(vm, fiber, at, policy),
{
}

/// Without bulk loops the budget does not matter.
proof fn lemma_plain_runs_agree(
    code: Seq<At>,
    one: ExecutionPolicy,
    other: ExecutionPolicy,
    vm: VmModel,
    fiber: FiberModel,
    n: nat,
)
    requires
        !one.allow_function_memo,
        !other.allow_function_memo,
    ensures
        bulk_code::run(code, one, vm, fiber, n) == bulk_code::run(code, other, vm, fiber, n),
    decreases n,
{
    if n > 0 {
        assert(bulk_code::next(code, one, vm, fiber) == bulk_code::next(code, other, vm, fiber)) by {
            reveal(bulk_code::next);
            let at = code[fiber.top().instruction as int];
            law_policy_matters_for_loops_alone(vm, fiber, at, one, other);
        }
        if let Some((v, f)) = bulk_code::next(code, one, vm, fiber) {
            lemma_plain_runs_agree(code, one, other, v, f, (n - 1) as nat);
        }
    }
}

} // verus!
