//! The stacks of an evaluation, the variables it reads and the operands it schedules.

use vstd::prelude::*;
use std::rc::Rc;
use crate::ast::{self, Expr, ExprKind, Tree, TreeKind, UnaryOp};
use crate::basic;
use crate::existvar::invalid;
use crate::fastpaths;
use crate::fault::{self, Failure, StepError, VmFaultCode};
use crate::form_graph;
use crate::form_resources;
use crate::forms::{Form, RuntimeFormContinuation, RuntimeFormTask, Task};
use crate::lookup;
use crate::memory::BytecodeStorage;
use crate::places;
use crate::program::{BytecodeGlobal, ProgramGeneration};
use crate::state::{self, Fiber, FiberModel, Frame, Vm, VmModel};
use crate::text;
use crate::value::{self, BytecodeType, FrameId, SymbolKey, Val, VmValue};

verus! {

/// Values off the top of the value stack.
pub open spec fn taken(form: Form, count: nat) -> (Form, Result<Seq<Val>, Failure>) {
    let n = form.values.len();
    if count > n {
        (form, Err(Failure::invalid("STRFORM value stack underflow"@)))
    } else {
        (
            Form { values: form.values.take(n - count), ..form },
            Ok(form.values.skip(n - count)),
        )
    }
}

/// Values as indices.
pub open spec fn index_values(values: Seq<Val>) -> Result<Seq<u64>, Failure>
    decreases values.len(),
{
    if values.len() == 0 {
        Ok(Seq::empty())
    } else {
        match index_values(values.drop_last()) {
            Err(e) => Err(e),
            Ok(before) => match values.last() {
                Val::Integer(n) => if n < 0 {
                    Err(Failure::of(VmFaultCode::Bounds, "STRFORM variable index is negative"@))
                } else {
                    Ok(before.push(n as u64))
                },
                _ => Err(basic::mismatch("STRFORM variable index is not an integer"@)),
            },
        }
    }
}

/// Indices off the top of the value stack.
pub open spec fn indices_taken(form: Form, count: nat) -> (Form, Result<Seq<u64>, Failure>) {
    match taken(form, count) {
        (after, Err(e)) => (after, Err(e)),
        (after, Ok(values)) => (after, index_values(values)),
    }
}

/// The value on top of the value stack, taken off.
pub open spec fn popped(form: Form, message: Seq<char>) -> (Form, Result<Val, Failure>) {
    if form.values.len() == 0 {
        (form, Err(Failure::invalid(message)))
    } else {
        (Form { values: form.values.drop_last(), ..form }, Ok(form.values.last()))
    }
}

/// The integer on top of the value stack, taken off.
pub open spec fn popped_integer(form: Form, message: Seq<char>) -> (Form, Result<i64, Failure>) {
    match popped(form, message) {
        (after, Err(e)) => (after, Err(e)),
        (after, Ok(Val::Integer(n))) => (after, Ok(n)),
        (after, Ok(_)) => (after, Err(basic::mismatch(message))),
    }
}

pub open spec fn values_result(r: Result<Vec<VmValue>, StepError>) -> Result<Seq<Val>, Failure> {
    match r {
        Ok(v) => Ok(value::vals(v@)),
        Err(e) => Err(e@),
    }
}

pub open spec fn indices_result(r: Result<Vec<u64>, StepError>) -> Result<Seq<u64>, Failure> {
    match r {
        Ok(v) => Ok(v@),
        Err(e) => Err(e@),
    }
}

pub open spec fn integer_result(r: Result<i64, StepError>) -> Result<i64, Failure> {
    match r {
        Ok(n) => Ok(n),
        Err(e) => Err(e@),
    }
}

proof fn lemma_indices_stop(values: Seq<Val>, n: int)
    requires
        0 <= n <= values.len(),
        index_values(values.take(n)) is Err,
    ensures
        index_values(values) == index_values(values.take(n)),
    decreases values.len() - n,
{
    if n == values.len() {
        assert(values.take(n) =~= values);
    } else {
        assert(values.take(n + 1).drop_last() =~= values.take(n));
        lemma_indices_stop(values, n + 1);
    }
}

#[verifier::loop_isolation(false)]
fn to_indices(values: &Vec<VmValue>) -> (r: Result<Vec<u64>, StepError>)
    ensures
        indices_result(r) == index_values(value::vals(values@)),
{
    let ghost all = value::vals(values@);
    let mut out: Vec<u64> = Vec::new();
    let mut i: usize = 0;
    assert(all.take(0) =~= Seq::<Val>::empty());
    while i < values.len()
        invariant
            i <= values.len(),
            index_values(all.take(i as int)) == Ok::<Seq<u64>, Failure>(out@),
        decreases values.len() - i,
    {
        proof {
            assert(all.take(i + 1).drop_last() =~= all.take(i as int));
            assert(all.take(i + 1).last() == values@[i as int]@);
        }
        match &values[i] {
            VmValue::Integer(n) => {
                if *n < 0 {
                    proof {
                        lemma_indices_stop(all, i + 1);
                    }
                    return Err(
                        StepError::new(VmFaultCode::Bounds, "STRFORM variable index is negative"),
                    );
                }
                out.push(*n as u64);
            },
            _ => {
                proof {
                    lemma_indices_stop(all, i + 1);
                }
                return Err(
                    StepError::new(
                        VmFaultCode::TypeMismatch,
                        "STRFORM variable index is not an integer",
                    ),
                );
            },
        }
        i = i + 1;
    }
    assert(all.take(i as int) =~= all);
    Ok(out)
}

/// The position of the frame that owns an evaluation.
pub open spec fn owner_at(fiber: FiberModel, frame: FrameId) -> Result<int, Failure> {
    match lookup::first_index(fiber.frames, state::frame_is(frame)) {
        Some(i) => Ok(i),
        None => Err(Failure::invalid("STRFORM owner frame is missing"@)),
    }
}

/// The frame that owns an evaluation.
pub fn owner_frame<'a>(fiber: &'a Fiber, frame: FrameId) -> (r: Result<&'a Frame, StepError>)
    ensures
        match (r, owner_at(fiber@, frame)) {
            (Ok(f), Ok(i)) => 0 <= i < fiber@.frames.len() && f@ == fiber@.frames[i],
            (Err(e), Err(f)) => e@ == f,
            _ => false,
        },
{
    match places::find_frame(fiber, frame) {
        Some(i) => Ok(&fiber.frames[i]),
        None => Err(invalid("STRFORM owner frame is missing")),
    }
}

/// The frame that owns an evaluation, for changing it.
pub fn owner_frame_mut<'a>(fiber: &'a mut Fiber, frame: FrameId) -> (r: Result<
    &'a mut Frame,
    StepError,
>)
    ensures
        match (r, owner_at(old(fiber)@, frame)) {
            (Ok(f), Ok(i)) => 0 <= i < old(fiber)@.frames.len() && f@ == old(fiber)@.frames[i]
                && final(fiber)@ == (FiberModel {
                frames: old(fiber)@.frames.update(i, final(f)@),
                ..old(fiber)@
            }),
            (Err(e), Err(f)) => e@ == f && final(fiber)@ == old(fiber)@,
            _ => false,
        },
{
    match places::find_frame(fiber, frame) {
        Some(at) => {
            let ghost before = fiber.frames@;
            let r = &mut fiber.frames[at];
            proof {
                let after = before.update(at as int, *final(r));
                assert(state::frame_views(after) =~= state::frame_views(before).update(
                    at as int,
                    final(r)@,
                ));
            }
            Ok(r)
        },
        None => Err(invalid("STRFORM owner frame is missing")),
    }
}

/// The number of a unary operator.
pub open spec fn unary_number(op: UnaryOp) -> u8 {
    match op {
        UnaryOp::Plus => 0,
        UnaryOp::Minus => 1,
        UnaryOp::LogicalNot => 2,
        UnaryOp::BitNot => 3,
        UnaryOp::PreIncrement => 4,
        UnaryOp::PreDecrement => 5,
    }
}

/// The number of a unary operator.
pub fn unary_tag(op: UnaryOp) -> (r: u8)
    ensures
        r == unary_number(op),
{
    match op {
        UnaryOp::Plus => 0,
        UnaryOp::Minus => 1,
        UnaryOp::LogicalNot => 2,
        UnaryOp::BitNot => 3,
        UnaryOp::PreIncrement => 4,
        UnaryOp::PreDecrement => 5,
    }
}

/// A variable whose name is not known.
pub open spec fn unknown_variable(name: Seq<char>) -> Failure {
    Failure::of(VmFaultCode::MissingSymbol, "STRFORM variable "@ + name + " is missing"@)
}

/// The value of a variable in the function of an evaluation.
pub open spec fn variable_read(
    vm: VmModel,
    fiber: FiberModel,
    form: Form,
    name: Seq<char>,
    indices: Seq<u64>,
) -> Result<Val, Failure> {
    match vm.program(form.generation) {
        None => Err(Failure::of(VmFaultCode::MissingSymbol, "STRFORM generation is missing"@)),
        Some(program) => match program.spec_scoped_variable(form.function, name) {
            None => Err(unknown_variable(name)),
            Some(g) => {
                let target = crate::named::target_character(vm, form.generation);
                let (character, rest) = basic::split_indices(*g, indices, target);
                match places::read_at(
                    vm.store,
                    fiber.frames,
                    places::variable_address(
                        *g,
                        character,
                        fastpaths::own_frame(*g, form.frame),
                    ),
                    rest,
                ) {
                    Ok(v) => Ok(v),
                    Err(e) => Err(fault::mapped(e)),
                }
            },
        },
    }
}

fn tail_of(indices: &Vec<u64>) -> (r: Vec<u64>)
    requires
        indices@.len() > 0,
    ensures
        r@ == indices@.skip(1),
{
    let mut out: Vec<u64> = Vec::new();
    let mut i: usize = 1;
    while i < indices.len()
        invariant
            1 <= i <= indices.len(),
            out@ == indices@.subrange(1, i as int),
        decreases indices.len() - i,
    {
        out.push(indices[i]);
        i = i + 1;
        assert(out@ =~= indices@.subrange(1, i as int));
    }
    assert(out@ =~= indices@.skip(1));
    out
}

pub(crate) fn split(g: &BytecodeGlobal, indices: Vec<u64>, target: u64) -> (r: (
    Option<u64>,
    Vec<u64>,
))
    ensures
        (r.0, r.1@) == basic::split_indices(*g, indices@, target),
{
    match g.storage {
        BytecodeStorage::Character => {
            if indices.len() > g.dimensions.len() {
                (Some(indices[0]), tail_of(&indices))
            } else {
                (Some(target), indices)
            }
        },
        _ => (None, indices),
    }
}

pub(crate) fn frame_of(g: &BytecodeGlobal, frame: FrameId) -> (r: Option<FrameId>)
    ensures
        r == fastpaths::own_frame(*g, frame),
{
    match g.storage {
        BytecodeStorage::FunctionLocal => Some(frame),
        _ => None,
    }
}

impl RuntimeFormContinuation {
    /// The value of a variable in the function of this evaluation.
    pub fn read_variable(&self, vm: &Vm, fiber: &Fiber, name: &str, indices: Vec<u64>) -> (r: Result<
        VmValue,
        StepError,
    >)
        ensures
            fault::outcome(r) == variable_read(vm@, fiber@, self@, name@, indices@),
    {
        let program = match vm.program(self.generation) {
            None => {
                return Err(
                    StepError::new(VmFaultCode::MissingSymbol, "STRFORM generation is missing"),
                );
            },
            Some(p) => p,
        };
        match program.scoped_variable(self.function, name) {
            None => {
                let message = text::join3("STRFORM variable ", name, " is missing");
                Err(StepError::new(VmFaultCode::MissingSymbol, message.as_str()))
            },
            Some(g) => {
                let target: u64 = vm.target_character_for_generation(self.generation);
                let (character, rest) = split(g, indices, target);
                match vm.read_variable_resolved(
                    fiber,
                    g,
                    rest.as_slice(),
                    character,
                    frame_of(g, self.frame),
                ) {
                    Ok(v) => Ok(v),
                    Err(e) => Err(fault::map_vm_error(e)),
                }
            },
        }
    }

    /// Takes values off the value stack.
    pub fn take_values(&mut self, count: usize) -> (r: Result<Vec<VmValue>, StepError>)
        ensures
            (final(self)@, values_result(r)) == taken(old(self)@, count as nat),
    {
        if count > self.values.len() {
            return Err(invalid("STRFORM value stack underflow"));
        }
        let start: usize = self.values.len() - count;
        let out = self.values.split_off(start);
        proof {
            let all = old(self)@.values;
            assert(value::vals(self.values@) =~= all.take(start as int));
            assert(value::vals(out@) =~= all.skip(start as int));
        }
        Ok(out)
    }

    /// Takes indices off the value stack.
    pub fn take_indices(&mut self, count: usize) -> (r: Result<Vec<u64>, StepError>)
        ensures
            (final(self)@, indices_result(r)) == indices_taken(old(self)@, count as nat),
    {
        match self.take_values(count) {
            Err(e) => Err(e),
            Ok(values) => to_indices(&values),
        }
    }

    /// Takes the value off the top of the value stack.
    pub fn pop_value(&mut self, message: &str) -> (r: Result<VmValue, StepError>)
        ensures
            (final(self)@, fault::outcome(r)) == popped(old(self)@, message@),
    {
        match self.values.pop() {
            Some(v) => {
                proof {
                    let all = old(self)@.values;
                    assert(all.last() == v@);
                    assert(value::vals(self.values@) =~= all.drop_last());
                }
                Ok(v)
            },
            None => Err(invalid(message)),
        }
    }

    /// Takes the integer off the top of the value stack.
    pub fn pop_integer(&mut self, message: &str) -> (r: Result<i64, StepError>)
        ensures
            (final(self)@, integer_result(r)) == popped_integer(old(self)@, message@),
    {
        match self.pop_value(message) {
            Err(e) => Err(e),
            Ok(VmValue::Integer(n)) => Ok(n),
            Ok(_) => Err(StepError::new(VmFaultCode::TypeMismatch, message)),
        }
    }
}

/// Tasks that evaluate indices, the first one on top.
pub open spec fn index_tasks(indices: Seq<Tree>) -> Seq<Task>
    decreases indices.len(),
{
    if indices.len() == 0 {
        Seq::empty()
    } else {
        index_tasks(indices.skip(1)).push(Task::Evaluate(indices[0]))
    }
}

/// An evaluation with more tasks on top.
pub open spec fn with_tasks(form: Form, tasks: Seq<Task>) -> Form {
    Form { work: form.work + tasks, ..form }
}

proof fn lemma_index_tasks(indices: Seq<Tree>, k: int)
    requires
        0 <= k < indices.len(),
    ensures
        index_tasks(indices.skip(k)) == index_tasks(indices.skip(k + 1)).push(
            Task::Evaluate(indices[k]),
        ),
{
    assert(indices.skip(k).skip(1) =~= indices.skip(k + 1));
    assert(indices.skip(k)[0] == indices[k]);
}

impl RuntimeFormContinuation {
    /// Schedules indices, so that the first one is evaluated first.
    pub(crate) fn push_indices(&mut self, indices: &Vec<Rc<Expr>>)
        ensures
            final(self)@ == with_tasks(old(self)@, index_tasks(ast::trees(indices@))),
    {
        let ghost all = ast::trees(indices@);
        let ghost start = self@;
        proof {
            ast::lemma_trees(indices@);
            assert(all.skip(all.len() as int) =~= Seq::<Tree>::empty());
            assert(start.work + Seq::<Task>::empty() =~= start.work);
        }
        let mut k: usize = indices.len();
        while k > 0
            invariant
                k <= indices.len(),
                all == ast::trees(indices@),
                all.len() == indices@.len(),
                forall|j: int|
                    0 <= j < indices@.len() ==> #[trigger] all[j] == ast::tree(*indices@[j]),
                self@ == with_tasks(start, index_tasks(all.skip(k as int))),
            decreases k,
        {
            k = k - 1;
            proof {
                lemma_index_tasks(all, k as int);
            }
            self.push_task(RuntimeFormTask::Evaluate(indices[k].clone()));
            assert(self@.work =~= start.work + index_tasks(all.skip(k as int)));
        }
        assert(all.skip(0) =~= all);
    }
}

/// A task that evaluates an argument or notes that it is left out.
pub open spec fn argument_task(argument: Option<Tree>) -> Task {
    match argument {
        Some(t) => Task::Evaluate(t),
        None => Task::PushOmitted,
    }
}

/// Tasks that evaluate arguments, the first one on top.
pub open spec fn argument_tasks(arguments: Seq<Option<Tree>>) -> Seq<Task>
    decreases arguments.len(),
{
    if arguments.len() == 0 {
        Seq::empty()
    } else {
        argument_tasks(arguments.skip(1)).push(argument_task(arguments[0]))
    }
}

proof fn lemma_argument_tasks(arguments: Seq<Option<Tree>>, k: int)
    requires
        0 <= k < arguments.len(),
    ensures
        argument_tasks(arguments.skip(k)) == argument_tasks(arguments.skip(k + 1)).push(
            argument_task(arguments[k]),
        ),
{
    assert(arguments.skip(k).skip(1) =~= arguments.skip(k + 1));
    assert(arguments.skip(k)[0] == arguments[k]);
}

pub(crate) fn task_for(argument: &Option<Rc<Expr>>) -> (r: RuntimeFormTask)
    ensures
        r@ == argument_task(ast::argument_tree(*argument)),
{
    match argument {
        Some(e) => RuntimeFormTask::Evaluate(e.clone()),
        None => RuntimeFormTask::PushOmitted,
    }
}

impl RuntimeFormContinuation {
    /// Schedules arguments, so that the first one is evaluated first.
    pub(crate) fn push_arguments(&mut self, arguments: &Vec<Option<Rc<Expr>>>)
        ensures
            final(self)@ == with_tasks(old(self)@, argument_tasks(ast::argument_trees(arguments@))),
    {
        let ghost all = ast::argument_trees(arguments@);
        let ghost start = self@;
        proof {
            ast::lemma_argument_trees(arguments@);
            assert(all.skip(all.len() as int) =~= Seq::<Option<Tree>>::empty());
            assert(start.work + Seq::<Task>::empty() =~= start.work);
        }
        let mut k: usize = arguments.len();
        while k > 0
            invariant
                k <= arguments.len(),
                all == ast::argument_trees(arguments@),
                all.len() == arguments@.len(),
                forall|j: int|
                    0 <= j < arguments@.len() ==> #[trigger] all[j] == ast::argument_tree(
                        arguments@[j],
                    ),
                self@ == with_tasks(start, argument_tasks(all.skip(k as int))),
            decreases k,
        {
            k = k - 1;
            proof {
                lemma_argument_tasks(all, k as int);
            }
            self.push_task(task_for(&arguments[k]));
            assert(self@.work =~= start.work + argument_tasks(all.skip(k as int)));
        }
        assert(all.skip(0) =~= all);
    }
}

/// The indices that a variable expression has.
pub open spec fn indices_in(t: Tree) -> Seq<Tree> {
    match ast::bare(t).kind {
        TreeKind::Variable(_, indices) => indices,
        _ => Seq::empty(),
    }
}

/// The tasks of one operand of a bound call.
pub open spec fn operand_tasks(
    program: ProgramGeneration,
    function: SymbolKey,
    argument: Option<Tree>,
    parameter: BytecodeType,
) -> Result<Seq<Task>, Failure> {
    if form_graph::is_place(parameter) {
        match argument {
            None => Err(Failure::invalid("omitted Host/Native place"@)),
            Some(t) => match ast::variable_in(t) {
                None => Err(Failure::invalid("bound Host/Native place lost its variable"@)),
                Some(name) => match program.spec_scoped_variable(function, name) {
                    None => Err(
                        Failure::of(
                            VmFaultCode::MissingSymbol,
                            "Host/Native place variable missing"@,
                        ),
                    ),
                    Some(g) => Ok(
                        seq![
                            Task::CaptureReferencePlace(g.key, indices_in(t).len() as usize),
                        ] + index_tasks(indices_in(t)),
                    ),
                },
            },
        }
    } else {
        Ok(seq![argument_task(argument)])
    }
}

/// The operands of a bound call are scheduled, from the last of the first `n` down.
pub open spec fn operands_pushed(
    form: Form,
    program: ProgramGeneration,
    arguments: Seq<Option<Tree>>,
    parameters: Seq<BytecodeType>,
    n: nat,
) -> (Form, Result<(), Failure>)
    decreases n,
{
    if n == 0 {
        (form, Ok(()))
    } else {
        match operand_tasks(program, form.function, arguments[n - 1], parameters[n - 1]) {
            Err(e) => (form, Err(e)),
            Ok(tasks) => operands_pushed(
                with_tasks(form, tasks),
                program,
                arguments,
                parameters,
                (n - 1) as nat,
            ),
        }
    }
}

/// The smaller of two lengths.
pub open spec fn paired(a: nat, b: nat) -> nat {
    if a < b {
        a
    } else {
        b
    }
}

impl RuntimeFormContinuation {
    fn push_operand(
        &mut self,
        program: &ProgramGeneration,
        argument: &Option<Rc<Expr>>,
        parameter: BytecodeType,
    ) -> (r: Result<(), StepError>)
        ensures
            match operand_tasks(
                *program,
                old(self)@.function,
                ast::argument_tree(*argument),
                parameter,
            ) {
                Ok(tasks) => r is Ok && final(self)@ == with_tasks(old(self)@, tasks),
                Err(e) => form_resources::unit_result(r) == Err::<(), Failure>(e) && final(self)@
                    == old(self)@,
            },
    {
        let ghost start = self@;
        if !form_graph::place_type(parameter) {
            self.push_task(task_for(argument));
            assert(self@.work =~= start.work + seq![argument_task(ast::argument_tree(*argument))]);
            return Ok(());
        }
        let e = match argument {
            None => {
                return Err(invalid("omitted Host/Native place"));
            },
            Some(e) => ast::ungroup(e),
        };
        match &e.kind {
            ExprKind::Variable { name, indices } => {
                let count: usize = indices.len();
                proof {
                    ast::lemma_trees(indices@);
                }
                match program.scoped_variable(self.function, name.as_str()) {
                    None => Err(
                        StepError::new(
                            VmFaultCode::MissingSymbol,
                            "Host/Native place variable missing",
                        ),
                    ),
                    Some(g) => {
                        self.push_task(
                            RuntimeFormTask::CaptureReferencePlace { key: g.key, indices: count },
                        );
                        self.push_indices(indices);
                        assert(self@.work =~= start.work + (seq![
                            Task::CaptureReferencePlace(g.key, count),
                        ] + index_tasks(ast::trees(indices@))));
                        Ok(())
                    },
                }
            },
            ExprKind::Identifier(name) => match program.scoped_variable(
                self.function,
                name.as_str(),
            ) {
                None => Err(
                    StepError::new(
                        VmFaultCode::MissingSymbol,
                        "Host/Native place variable missing",
                    ),
                ),
                Some(g) => {
                    self.push_task(
                        RuntimeFormTask::CaptureReferencePlace { key: g.key, indices: 0 },
                    );
                    assert(self@.work =~= start.work + (seq![
                        Task::CaptureReferencePlace(g.key, 0),
                    ] + index_tasks(Seq::empty())));
                    Ok(())
                },
            },
            _ => Err(invalid("bound Host/Native place lost its variable")),
        }
    }

    /// Schedules the operands of a bound call, so that the first one is evaluated first.
    #[verifier::loop_isolation(false)]
    pub fn schedule_bound_source_arguments(
        &mut self,
        program: &ProgramGeneration,
        arguments: &Vec<Option<Rc<Expr>>>,
        parameters: &Vec<BytecodeType>,
        count: usize,
    ) -> (r: Result<(), StepError>)
        requires
            count <= arguments@.len(),
            count <= parameters@.len(),
        ensures
            (final(self)@, form_resources::unit_result(r)) == operands_pushed(
                old(self)@,
                *program,
                ast::argument_trees(arguments@),
                parameters@,
                count as nat,
            ),
    {
        let ghost all = ast::argument_trees(arguments@);
        let ghost start = self@;
        proof {
            ast::lemma_argument_trees(arguments@);
        }
        let mut k: usize = count;
        while k > 0
            invariant
                k <= count,
                self@.function == start.function,
                operands_pushed(start, *program, all, parameters@, count as nat)
                    == operands_pushed(self@, *program, all, parameters@, k as nat),
            decreases k,
        {
            k = k - 1;
            match self.push_operand(program, &arguments[k], parameters[k]) {
                Ok(_) => {},
                Err(e) => {
                    return Err(e);
                },
            }
        }
        Ok(())
    }
}

} // verus!
