//! Catch boundaries of an evaluation.
//!
//! A script failure inside a boundary is selected before frames are unwound. Finishing the catch
//! only restores the temporary state of the evaluation.

use vstd::prelude::*;
use crate::fault::{Failure, StepError};
use crate::form_resources;
use crate::form_support;
use crate::forms::{
    self, FormatCheckpoint, FormatCheckpointKind, Form, RuntimeFormContinuation, RuntimeFormRoot,
    RuntimeFormTask, Task, MAX_RUNTIME_FORM_NESTING,
};
use crate::existvar;
use crate::state::{self, Fiber, FiberModel, Frame, FrameModel};
use crate::value::{self, FiberId, FrameId, GenerationId, SymbolKey, Val, VmValue};

verus! {

/// An evaluation that will take a failure.
#[derive(Clone, Copy, PartialEq, Eq, Debug, Structural)]
pub struct RuntimeFormCatchTarget {
    pub fiber: FiberId,
    pub owner: FrameId,
    pub generation: GenerationId,
    pub function: SymbolKey,
    pub instruction: usize,
    pub checkpoint: u64,
    pub owner_stack_depth: usize,
    pub owner_user_calls: usize,
}

/// A boundary whose state is not what it must be.
pub fn invalid_checkpoint(message: &str) -> (r: StepError)
    ensures
        r@ == Failure::invalid(message@),
{
    existvar::invalid(message)
}

/// The task that ends a boundary.
pub open spec fn marker(check: FormatCheckpoint) -> Task {
    match check.kind {
        FormatCheckpointKind::CheckedForm => Task::FinishCheck(check.id),
        FormatCheckpointKind::ExpressionProbe => Task::FinishExpressionProbe(check.id),
        FormatCheckpointKind::CallTextArguments(_) => Task::FinishCallTextArgumentCatch(check.id),
    }
}

pub open spec fn is_marker(t: Task) -> bool {
    t is FinishCheck || t is FinishExpressionProbe || t is FinishCallTextArgumentCatch
}

/// The number of tasks that end boundaries.
pub open spec fn markers(work: Seq<Task>) -> nat
    decreases work.len(),
{
    if work.len() == 0 {
        0
    } else {
        markers(work.drop_last()) + if is_marker(work.last()) {
            1nat
        } else {
            0nat
        }
    }
}

/// A boundary fits the stacks, and its end is scheduled where it was opened.
pub open spec fn fits(form: Form, check: FormatCheckpoint) -> bool {
    &&& check.id != 0
    &&& check.id < form.next_checkpoint
    &&& check.value_depth <= form.values.len()
    &&& check.output_depth <= form.outputs.len()
    &&& check.work_depth < form.work.len()
    &&& form.work[check.work_depth as int] == marker(check)
}

/// A boundary lies inside another.
pub open spec fn nested(inner: FormatCheckpoint, outer: FormatCheckpoint) -> bool {
    &&& inner.id > outer.id
    &&& inner.work_depth > outer.work_depth
    &&& inner.value_depth >= outer.value_depth
    &&& inner.output_depth >= outer.output_depth
    &&& inner.owner_stack_depth == outer.owner_stack_depth
    &&& inner.owner_user_calls == outer.owner_user_calls
}

/// The boundaries are those whose ends are scheduled, each inside the one before.
pub open spec fn checkpoints_valid(form: Form) -> bool {
    &&& form.next_checkpoint != 0
    &&& form.checkpoints.len() <= MAX_RUNTIME_FORM_NESTING
    &&& forall|i: int| 0 <= i < form.checkpoints.len() ==> fits(form, #[trigger] form.checkpoints[i])
    &&& forall|i: int|
        0 < i < form.checkpoints.len() ==> nested(
            #[trigger] form.checkpoints[i],
            form.checkpoints[i - 1],
        )
    &&& markers(form.work) == form.checkpoints.len()
}

fn is_end_of(t: &RuntimeFormTask, check: &FormatCheckpoint) -> (r: bool)
    ensures
        r == (t@ == marker(*check)),
{
    match (t, check.kind) {
        (RuntimeFormTask::FinishCheck(id), FormatCheckpointKind::CheckedForm) => *id == check.id,
        (RuntimeFormTask::FinishExpressionProbe(id), FormatCheckpointKind::ExpressionProbe) => *id
            == check.id,
        (
            RuntimeFormTask::FinishCallTextArgumentCatch(id),
            FormatCheckpointKind::CallTextArguments(_),
        ) => *id == check.id,
        _ => false,
    }
}

fn ends_boundary(t: &RuntimeFormTask) -> (r: bool)
    ensures
        r == is_marker(t@),
{
    match t {
        RuntimeFormTask::FinishCheck(_) => true,
        RuntimeFormTask::FinishExpressionProbe(_) => true,
        RuntimeFormTask::FinishCallTextArgumentCatch(_) => true,
        _ => false,
    }
}

impl RuntimeFormContinuation {
    fn count_markers(&self) -> (r: usize)
        ensures
            r == markers(self@.work),
    {
        let ghost work = self@.work;
        let mut n: usize = 0;
        let mut i: usize = 0;
        assert(work.take(0) =~= Seq::<Task>::empty());
        while i < self.work.len()
            invariant
                i <= self.work.len(),
                work == self@.work,
                n <= i,
                n == markers(work.take(i as int)),
            decreases self.work.len() - i,
        {
            proof {
                assert(work[i as int] == self.work@[i as int]@);
                assert(work.take(i + 1).drop_last() =~= work.take(i as int));
            }
            if ends_boundary(&self.work[i]) {
                n = n + 1;
            }
            i = i + 1;
        }
        assert(work.take(i as int) =~= work);
        n
    }

    /// Tells whether the boundaries are those whose ends are scheduled.
    pub fn checkpoints_valid(&self) -> (r: bool)
        ensures
            r == checkpoints_valid(self@),
    {
        let ghost form = self@;
        if self.next_checkpoint == 0 || self.checkpoints.len() > MAX_RUNTIME_FORM_NESTING {
            return false;
        }
        let mut i: usize = 0;
        while i < self.checkpoints.len()
            invariant
                i <= self.checkpoints.len(),
                form == self@,
                forall|j: int| 0 <= j < i ==> fits(form, #[trigger] form.checkpoints[j]),
                forall|j: int|
                    0 < j < i ==> nested(#[trigger] form.checkpoints[j], form.checkpoints[j - 1]),
            decreases self.checkpoints.len() - i,
        {
            let check = self.checkpoints[i];
            assert(form.checkpoints[i as int] == check);
            if check.id == 0 || check.id >= self.next_checkpoint || check.value_depth
                > self.values.len() || check.output_depth > self.outputs.len()
                || check.work_depth >= self.work.len() {
                assert(!fits(form, form.checkpoints[i as int]));
                return false;
            }
            assert(form.work[check.work_depth as int] == self.work@[check.work_depth as int]@);
            if !is_end_of(&self.work[check.work_depth], &check) {
                assert(!fits(form, form.checkpoints[i as int]));
                return false;
            }
            if i > 0 {
                let outer = self.checkpoints[i - 1];
                if check.id <= outer.id || check.work_depth <= outer.work_depth || check.value_depth
                    < outer.value_depth || check.output_depth < outer.output_depth
                    || check.owner_stack_depth != outer.owner_stack_depth || check.owner_user_calls
                    != outer.owner_user_calls {
                    assert(!nested(form.checkpoints[i as int], form.checkpoints[i - 1]));
                    return false;
                }
            }
            i = i + 1;
        }
        self.count_markers() == self.checkpoints.len()
    }
}

/// The boundary that takes a failure.
pub open spec fn catch_of(fiber: FiberId, frame: FrameModel, failure: Failure) -> Option<
    RuntimeFormCatchTarget,
> {
    match frame.runtime_form {
        None => None,
        Some(form) => if !(failure.category is Script) || form.checkpoints.len() == 0
            || form.frame != frame.id || !checkpoints_valid(form) {
            None
        } else {
            let check = form.checkpoints.last();
            Some(
                RuntimeFormCatchTarget {
                    fiber,
                    owner: form.frame,
                    generation: form.generation,
                    function: form.function,
                    instruction: form.instruction,
                    checkpoint: check.id,
                    owner_stack_depth: check.owner_stack_depth,
                    owner_user_calls: check.owner_user_calls,
                },
            )
        },
    }
}

/// Selects the boundary that takes a failure; nothing changes yet.
pub fn select_runtime_form_catch(fiber: FiberId, frame: &Frame, failure: &StepError) -> (r: Option<
    RuntimeFormCatchTarget,
>)
    ensures
        r == catch_of(fiber, frame@, failure@),
{
    if !failure.is_script() {
        return None;
    }
    match &frame.runtime_form {
        None => None,
        Some(form) => {
            if form.checkpoints.len() == 0 || form.frame != frame.id || !form.checkpoints_valid() {
                return None;
            }
            let check = form.checkpoints[form.checkpoints.len() - 1];
            Some(
                RuntimeFormCatchTarget {
                    fiber,
                    owner: form.frame,
                    generation: form.generation,
                    function: form.function,
                    instruction: form.instruction,
                    checkpoint: check.id,
                    owner_stack_depth: check.owner_stack_depth,
                    owner_user_calls: check.owner_user_calls,
                },
            )
        },
    }
}

/// An evaluation whose last boundary took a failure: everything scheduled inside is dropped. A
/// check or a probe gives zero, and arguments of a call make the call fail.
pub open spec fn recovered(form: Form) -> Form {
    let check = form.checkpoints.last();
    let restored = Form {
        work: form.work.take(check.work_depth as int),
        values: form.values.take(check.value_depth as int),
        outputs: form.outputs.take(check.output_depth as int),
        checkpoints: form.checkpoints.drop_last(),
        awaiting: None,
        ..form
    };
    match check.kind {
        FormatCheckpointKind::CallTextArguments(spec) => Form {
            completion: RuntimeFormRoot::Call { spec, failed: true },
            ..restored
        },
        _ => restored.with_value(Val::Integer(0)),
    }
}

pub open spec fn is_target(form: Form, target: RuntimeFormCatchTarget) -> bool {
    &&& form.checkpoints.len() > 0
    &&& form.checkpoints.last().id == target.checkpoint
    &&& form.checkpoints.last().owner_stack_depth == target.owner_stack_depth
    &&& form.checkpoints.last().owner_user_calls == target.owner_user_calls
}

/// A failure is taken once the frames inside the boundary are gone.
pub open spec fn caught(fiber: FiberModel, target: RuntimeFormCatchTarget) -> (
    FiberModel,
    Result<(), Failure>,
) {
    if fiber.id != target.fiber {
        (fiber, Err(Failure::invalid("format catch belongs to another fiber"@)))
    } else if fiber.frames.len() == 0 || fiber.top().id != target.owner || fiber.top().generation
        != target.generation || fiber.top().function != target.function {
        (
            fiber,
            Err(Failure::invalid("format catch owner is not the active frame after unwind"@)),
        )
    } else if fiber.top().stack.len() != target.owner_stack_depth || fiber.top().user_calls.len()
        != target.owner_user_calls {
        (
            fiber,
            Err(Failure::invalid("format catch owner temporary state has not been restored"@)),
        )
    } else {
        match fiber.top().runtime_form {
            None => (fiber, Err(Failure::invalid("format catch lost its continuation"@))),
            Some(form) => if form.instruction != target.instruction || !checkpoints_valid(form) {
                (fiber, Err(Failure::invalid("format catch continuation identity is invalid"@)))
            } else if !is_target(form, target) {
                (fiber, Err(Failure::invalid("format catch checkpoint is stale"@)))
            } else {
                (
                    fiber.with_top(
                        FrameModel { runtime_form: Some(recovered(form)), ..fiber.top() },
                    ),
                    Ok(()),
                )
            },
        }
    }
}

impl RuntimeFormContinuation {
    fn recover(&mut self)
        requires
            checkpoints_valid(old(self)@),
            old(self)@.checkpoints.len() > 0,
        ensures
            final(self)@ == recovered(old(self)@),
    {
        let ghost form = self@;
        let check = self.checkpoints[self.checkpoints.len() - 1];
        assert(fits(form, form.checkpoints[form.checkpoints.len() - 1]));
        self.work.truncate(check.work_depth);
        self.values.truncate(check.value_depth);
        self.outputs.truncate(check.output_depth);
        let _ = self.checkpoints.pop();
        self.awaiting_user_call = None;
        proof {
            assert(forms::task_views(self.work@) =~= form.work.take(check.work_depth as int));
            assert(value::vals(self.values@) =~= form.values.take(check.value_depth as int));
            assert(forms::output_views(self.outputs@) =~= form.outputs.take(
                check.output_depth as int,
            ));
            assert(self.checkpoints@ =~= form.checkpoints.drop_last());
        }
        match check.kind {
            FormatCheckpointKind::CallTextArguments(spec) => {
                self.completion = RuntimeFormRoot::Call { spec, failed: true };
            },
            _ => {
                self.push_value(VmValue::Integer(0));
            },
        }
    }
}

/// Takes a failure once the frames inside the boundary are gone.
pub fn finish_runtime_form_catch(fiber: &mut Fiber, target: RuntimeFormCatchTarget) -> (r: Result<
    (),
    StepError,
>)
    ensures
        (final(fiber)@, form_resources::unit_result(r)) == caught(old(fiber)@, target),
{
    if fiber.id != target.fiber {
        return Err(invalid_checkpoint("format catch belongs to another fiber"));
    }
    let not_active = "format catch owner is not the active frame after unwind";
    if fiber.frames.len() == 0 {
        return Err(invalid_checkpoint(not_active));
    }
    let ghost before = fiber@;
    let owner = fiber.top();
    if owner.id != target.owner || owner.generation != target.generation || owner.function
        != target.function {
        return Err(invalid_checkpoint(not_active));
    }
    assert(owner@.user_calls.len() == owner.user_calls@.len());
    if owner.stack.len() != target.owner_stack_depth || owner.user_calls.len()
        != target.owner_user_calls {
        return Err(
            invalid_checkpoint("format catch owner temporary state has not been restored"),
        );
    }
    match &owner.runtime_form {
        None => {
            return Err(invalid_checkpoint("format catch lost its continuation"));
        },
        Some(form) => {
            if form.instruction != target.instruction || !form.checkpoints_valid() {
                return Err(invalid_checkpoint("format catch continuation identity is invalid"));
            }
            let stale = "format catch checkpoint is stale";
            if form.checkpoints.len() == 0 {
                return Err(invalid_checkpoint(stale));
            }
            let check = form.checkpoints[form.checkpoints.len() - 1];
            if check.id != target.checkpoint || check.owner_stack_depth != target.owner_stack_depth
                || check.owner_user_calls != target.owner_user_calls {
                return Err(invalid_checkpoint(stale));
            }
        },
    }
    let top = fiber.top_mut();
    match top.runtime_form.take() {
        Some(form) => {
            let mut form = form;
            form.recover();
            top.runtime_form = Some(form);
        },
        None => {},
    }
    Ok(())
}

/// A boundary is opened: its end is scheduled, and the depths of the stacks are kept.
pub open spec fn opened(
    form: Form,
    fiber: FiberModel,
    kind: FormatCheckpointKind,
    exhausted: Seq<char>,
) -> (Form, Result<u64, Failure>) {
    match form_support::owner_at(fiber, form.frame) {
        Err(e) => (form, Err(e)),
        Ok(i) => {
            let id = form.next_checkpoint;
            if id == u64::MAX {
                (form, Err(form_resources::resource_failure(exhausted)))
            } else {
                let check = FormatCheckpoint {
                    id,
                    kind,
                    work_depth: form.work.len() as usize,
                    value_depth: form.values.len() as usize,
                    output_depth: form.outputs.len() as usize,
                    owner_stack_depth: fiber.frames[i].stack.len() as usize,
                    owner_user_calls: fiber.frames[i].user_calls.len() as usize,
                };
                (
                    Form {
                        next_checkpoint: (id + 1) as u64,
                        checkpoints: form.checkpoints.push(check),
                        work: form.work.push(marker(check)),
                        ..form
                    },
                    Ok(id),
                )
            }
        },
    }
}

/// A check or a probe has ended well: the text is replaced by one.
pub open spec fn check_finished(form: Form, id: u64) -> (Form, Result<(), Failure>) {
    if form.checkpoints.len() == 0 || form.checkpoints.last().id != id {
        (form, Err(Failure::invalid("STRFORMCHECK completion marker has no checkpoint"@)))
    } else {
        let check = form.checkpoints.last();
        let expected = if check.value_depth < usize::MAX {
            check.value_depth + 1
        } else {
            usize::MAX as int
        };
        if form.work.len() != check.work_depth || form.outputs.len() != check.output_depth
            || form.values.len() != expected || form.values.len() == 0 || !(form.values.last()
            is Text) {
            (
                form,
                Err(Failure::invalid("STRFORMCHECK expansion has an invalid completion shape"@)),
            )
        } else {
            (
                Form {
                    values: form.values.drop_last().push(Val::Integer(1)),
                    checkpoints: form.checkpoints.drop_last(),
                    ..form
                },
                Ok(()),
            )
        }
    }
}

pub open spec fn id_result(r: Result<u64, StepError>) -> Result<u64, Failure> {
    match r {
        Ok(id) => Ok(id),
        Err(e) => Err(e@),
    }
}

impl RuntimeFormContinuation {
    /// Opens a boundary.
    pub fn open_checkpoint(
        &mut self,
        fiber: &Fiber,
        kind: FormatCheckpointKind,
        exhausted: &str,
    ) -> (r: Result<u64, StepError>)
        ensures
            (final(self)@, id_result(r)) == opened(old(self)@, fiber@, kind, exhausted@),
    {
        let ghost form = self@;
        let owner = match form_support::owner_frame(fiber, self.frame) {
            Err(e) => {
                return Err(e);
            },
            Ok(f) => f,
        };
        let id: u64 = self.next_checkpoint;
        if id == u64::MAX {
            return Err(form_resources::resource_limit(exhausted));
        }
        assert(owner@.user_calls.len() == owner.user_calls@.len());
        assert(owner@.stack.len() == owner.stack@.len());
        assert(form.work.len() == self.work@.len());
        assert(form.outputs.len() == self.outputs@.len());
        let check = FormatCheckpoint {
            id,
            kind,
            work_depth: self.work.len(),
            value_depth: self.values.len(),
            output_depth: self.outputs.len(),
            owner_stack_depth: owner.stack.len(),
            owner_user_calls: owner.user_calls.len(),
        };
        self.next_checkpoint = id + 1;
        self.checkpoints.push(check);
        let end = match kind {
            FormatCheckpointKind::CheckedForm => RuntimeFormTask::FinishCheck(id),
            FormatCheckpointKind::ExpressionProbe => RuntimeFormTask::FinishExpressionProbe(id),
            FormatCheckpointKind::CallTextArguments(_) => {
                RuntimeFormTask::FinishCallTextArgumentCatch(id)
            },
        };
        self.push_task(end);
        Ok(id)
    }

    /// Ends a check or a probe whose text was made without failure.
    pub fn finish_checked_form(&mut self, id: u64) -> (r: Result<(), StepError>)
        ensures
            (final(self)@, form_resources::unit_result(r)) == check_finished(old(self)@, id),
    {
        let ghost form = self@;
        let unmarked = "STRFORMCHECK completion marker has no checkpoint";
        if self.checkpoints.len() == 0 {
            return Err(invalid_checkpoint(unmarked));
        }
        let check = self.checkpoints[self.checkpoints.len() - 1];
        if check.id != id {
            return Err(invalid_checkpoint(unmarked));
        }
        let expected: usize = if check.value_depth < usize::MAX {
            check.value_depth + 1
        } else {
            usize::MAX
        };
        let shape = "STRFORMCHECK expansion has an invalid completion shape";
        assert(form.work.len() == self.work@.len());
        assert(form.outputs.len() == self.outputs@.len());
        if self.work.len() != check.work_depth || self.outputs.len() != check.output_depth
            || self.values.len() != expected || self.values.len() == 0 {
            return Err(invalid_checkpoint(shape));
        }
        assert(form.values.last() == self.values@.last()@);
        let text = match &self.values[self.values.len() - 1] {
            VmValue::String(_) => true,
            _ => false,
        };
        if !text {
            return Err(invalid_checkpoint(shape));
        }
        let _ = self.values.pop();
        self.values.push(VmValue::Integer(1));
        let _ = self.checkpoints.pop();
        proof {
            assert(value::vals(self.values@) =~= form.values.drop_last().push(Val::Integer(1)));
            assert(self.checkpoints@ =~= form.checkpoints.drop_last());
        }
        Ok(())
    }
}

proof fn lemma_markers_take(work: Seq<Task>, n: int)
    requires
        0 <= n <= work.len(),
    ensures
        markers(work.take(n)) <= markers(work),
    decreases work.len() - n,
{
    if n == work.len() {
        assert(work.take(n) =~= work);
    } else {
        assert(work.take(n + 1).drop_last() =~= work.take(n));
        lemma_markers_take(work, n + 1);
    }
}

proof fn lemma_markers_below(form: Form, k: int, n: int)
    requires
        0 <= k <= form.checkpoints.len(),
        0 <= n <= form.work.len(),
        forall|i: int| 0 <= i < k ==> fits(form, #[trigger] form.checkpoints[i])
            && form.checkpoints[i].work_depth < n,
        forall|i: int|
            0 < i < k ==> nested(#[trigger] form.checkpoints[i], form.checkpoints[i - 1]),
    ensures
        markers(form.work.take(n)) >= k,
    decreases k,
{
    if k > 0 {
        let check = form.checkpoints[k - 1];
        let at = check.work_depth as int;
        assert(fits(form, check));
        assert forall|i: int| 0 <= i < k - 1 implies (#[trigger] form.checkpoints[i]).work_depth
            < at by {
            lemma_depths_grow(form, i, k - 1, k);
        }
        lemma_markers_below(form, k - 1, at);
        assert(form.work.take(at + 1).drop_last() =~= form.work.take(at));
        assert(form.work.take(at + 1).last() == marker(check));
        let inner = form.work.take(n);
        assert(inner.take(at + 1) =~= form.work.take(at + 1));
        lemma_markers_take(inner, at + 1);
    }
}

proof fn lemma_depths_grow(form: Form, i: int, j: int, k: int)
    requires
        0 <= i < j < k <= form.checkpoints.len(),
        forall|m: int|
            0 < m < k ==> nested(#[trigger] form.checkpoints[m], form.checkpoints[m - 1]),
    ensures
        form.checkpoints[i].work_depth < form.checkpoints[j].work_depth,
    decreases j - i,
{
    assert(nested(form.checkpoints[j], form.checkpoints[j - 1]));
    if i < j - 1 {
        lemma_depths_grow(form, i, j - 1, k);
    }
}

proof fn lemma_markers_split(work: Seq<Task>, n: int)
    requires
        0 <= n < work.len(),
        is_marker(work[n]),
    ensures
        markers(work.take(n)) < markers(work),
{
    assert(work.take(n + 1).drop_last() =~= work.take(n));
    assert(work.take(n + 1).last() == work[n]);
    lemma_markers_take(work, n + 1);
}

/// A boundary that took a failure is gone, and those around it stay valid.
pub proof fn law_recovery_keeps_outer_boundaries(form: Form)
    requires
        checkpoints_valid(form),
        form.checkpoints.len() > 0,
    ensures
        checkpoints_valid(recovered(form)),
        recovered(form).checkpoints == form.checkpoints.drop_last(),
{
    let after = recovered(form);
    let last = form.checkpoints.len() - 1;
    let check = form.checkpoints[last];
    let at = check.work_depth as int;
    assert(fits(form, check));
    assert forall|i: int| 0 <= i < after.checkpoints.len() implies fits(
        after,
        #[trigger] after.checkpoints[i],
    ) by {
        assert(after.checkpoints[i] == form.checkpoints[i]);
        assert(fits(form, form.checkpoints[i]));
        lemma_depths_grow(form, i, last, last + 1);
        lemma_value_depths(form, i, last);
        assert(after.work[form.checkpoints[i].work_depth as int]
            == form.work[form.checkpoints[i].work_depth as int]);
    }
    assert forall|i: int| 0 < i < after.checkpoints.len() implies nested(
        #[trigger] after.checkpoints[i],
        after.checkpoints[i - 1],
    ) by {
        assert(after.checkpoints[i] == form.checkpoints[i]);
        assert(after.checkpoints[i - 1] == form.checkpoints[i - 1]);
        assert(nested(form.checkpoints[i], form.checkpoints[i - 1]));
    }
    assert forall|i: int| 0 <= i < last implies fits(form, #[trigger] form.checkpoints[i])
        && form.checkpoints[i].work_depth < at by {
        lemma_depths_grow(form, i, last, last + 1);
    }
    lemma_markers_below(form, last, at);
    lemma_markers_split(form.work, at);
}

proof fn lemma_value_depths(form: Form, i: int, j: int)
    requires
        0 <= i <= j < form.checkpoints.len(),
        forall|m: int|
            0 < m < form.checkpoints.len() ==> nested(
                #[trigger] form.checkpoints[m],
                form.checkpoints[m - 1],
            ),
    ensures
        form.checkpoints[i].value_depth <= form.checkpoints[j].value_depth,
        form.checkpoints[i].output_depth <= form.checkpoints[j].output_depth,
    decreases j - i,
{
    if i < j {
        assert(nested(form.checkpoints[j], form.checkpoints[j - 1]));
        lemma_value_depths(form, i, j - 1);
    }
}

/// A failure that was taken is not taken again: the same target is stale afterwards.
pub proof fn law_boundary_is_used_once(fiber: FiberModel, target: RuntimeFormCatchTarget)
    requires
        caught(fiber, target).1 is Ok,
    ensures
        caught(caught(fiber, target).0, target).1 is Err,
{
    let form = fiber.top().runtime_form->0;
    let (after, _) = caught(fiber, target);
    let last = form.checkpoints.len() - 1;
    assert(after.top().runtime_form == Some(recovered(form)));
    law_recovery_keeps_outer_boundaries(form);
    if last > 0 {
        assert(nested(form.checkpoints[last], form.checkpoints[last - 1]));
        assert(recovered(form).checkpoints.last() == form.checkpoints[last - 1]);
    }
    assert(!is_target(recovered(form), target));
}

/// Only failures of the script are taken.
pub proof fn law_only_script_failures_are_caught(fiber: FiberId, frame: FrameModel, failure: Failure)
    requires
        catch_of(fiber, frame, failure) is Some,
    ensures
        failure.category is Script,
{
}

/// Opening a boundary on valid ones leaves them valid, where the nesting allows one more.
pub proof fn law_opening_keeps_boundaries(
    form: Form,
    fiber: FiberModel,
    kind: FormatCheckpointKind,
    exhausted: Seq<char>,
)
    requires
        checkpoints_valid(form),
        form.checkpoints.len() < MAX_RUNTIME_FORM_NESTING,
        form.work.len() <= usize::MAX,
        form.values.len() <= usize::MAX,
        form.outputs.len() <= usize::MAX,
        opened(form, fiber, kind, exhausted).1 is Ok,
        form.checkpoints.len() > 0 ==> ({
            let check = opened(form, fiber, kind, exhausted).0.checkpoints.last();
            check.owner_stack_depth == form.checkpoints.last().owner_stack_depth
                && check.owner_user_calls == form.checkpoints.last().owner_user_calls
        }),
    ensures
        checkpoints_valid(opened(form, fiber, kind, exhausted).0),
{
    let after = opened(form, fiber, kind, exhausted).0;
    let n = form.checkpoints.len() as int;
    let check = after.checkpoints[n];
    assert(after.work.drop_last() =~= form.work);
    assert(is_marker(marker(check)));
    assert forall|i: int| 0 <= i < after.checkpoints.len() implies fits(
        after,
        #[trigger] after.checkpoints[i],
    ) by {
        if i < n {
            assert(after.checkpoints[i] == form.checkpoints[i]);
            assert(fits(form, form.checkpoints[i]));
        }
    }
    assert forall|i: int| 0 < i < after.checkpoints.len() implies nested(
        #[trigger] after.checkpoints[i],
        after.checkpoints[i - 1],
    ) by {
        assert(after.checkpoints[i - 1] == form.checkpoints[i - 1]);
        assert(fits(form, form.checkpoints[i - 1]));
        if i < n {
            assert(after.checkpoints[i] == form.checkpoints[i]);
            assert(nested(form.checkpoints[i], form.checkpoints[i - 1]));
        }
    }
}

} // verus!
