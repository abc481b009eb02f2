//! Whether a stored evaluation is in a state that it can be in.

use vstd::prelude::*;
use std::rc::Rc;
use crate::ast::{self, Expr, Tree};
use crate::form_binding;
use crate::form_calls;
use crate::form_checkpoints;
use crate::form_effects;
use crate::form_methods::{self, UserFrameOrigin};
use crate::form_plans;
use crate::form_queries;
use crate::form_resources;
use crate::form_staged;
use crate::form_symbols;
use crate::form_typing;
use crate::forms::{
    Form, FormatCheckpoint, InputOperation, MapLease, RuntimeFormContinuation, RuntimeFormTask,
    RuntimeUserCall, Task,
};
use crate::lookup;
use crate::places;
use crate::program::{HostImport, ProgramGeneration};
use crate::state::{self, Fiber, FiberModel, FrameModel, Vm, VmModel};
use crate::text;
use crate::value::{ArrayLeaseId, BytecodeType, FiberId};

verus! {

/// What is known of an evaluation from outside it: which captured arrays of the call of each step
/// are still held, who entered the frame above its own, and which BIT scans are under way.
pub struct MethodFacts {
    pub references: Vec<Vec<bool>>,
    pub waiting: Vec<bool>,
    pub origin: Option<UserFrameOrigin>,
    pub progress: Vec<ArrayLeaseId>,
}

/// The flags of a step.
pub open spec fn references_at(facts: MethodFacts, i: int) -> Seq<bool> {
    if i < facts.references@.len() {
        facts.references@[i]@
    } else {
        Seq::empty()
    }
}

/// An expression stands in the source of a plan and has a type there.
pub open spec fn planned_as(
    form: Form,
    program: ProgramGeneration,
    plan: u64,
    t: Tree,
    kind: BytecodeType,
) -> bool {
    form.plan_has(program, plan, t) && form.planned_type(plan, t) == Ok::<
        BytecodeType,
        crate::fault::Failure,
    >(kind)
}

pub open spec fn optional_as(
    form: Form,
    program: ProgramGeneration,
    plan: u64,
    t: Option<Tree>,
    kind: BytecodeType,
) -> bool {
    match t {
        None => true,
        Some(t) => planned_as(form, program, plan, t, kind),
    }
}

/// An input service that takes a number of arguments.
pub open spec fn input_service(name: Seq<char>, count: usize) -> spec_fn(HostImport) -> bool {
    |h: HostImport|
        h.import.namespace@ == "rustyera.input"@ && text::same_ignoring_case(h.import.name@, name)
            && h.import.parameters@.len() == count && h.import.result == Some(
            BytecodeType::Integer,
        )
}

pub open spec fn has_input_service(program: ProgramGeneration, name: Seq<char>, count: usize) -> bool {
    exists|i: int|
        0 <= i < program.host_imports@.len() && input_service(name, count)(
            #[trigger] program.host_imports@[i],
        )
}

/// The arguments of a method stand in the source of a plan.
pub open spec fn method_arguments_planned(
    form: Form,
    program: ProgramGeneration,
    plan: u64,
    arguments: Seq<Option<Tree>>,
) -> bool {
    forall|i: int|
        0 <= i < arguments.len() ==> (match #[trigger] arguments[i] {
            None => true,
            Some(t) => form.plan_has(program, plan, t),
        }) && form.planned_spec(program, plan, arguments[i]) is Ok
}

/// A stored step of a user call is in a state that it can be in.
pub open spec fn user_call_valid(
    vm: VmModel,
    form: Form,
    program: ProgramGeneration,
    call: crate::forms::UserCall,
    awaiting: bool,
    references: Seq<bool>,
) -> bool {
    form_methods::sources_planned(form, program, call) && form_methods::call_checked(
        vm,
        form,
        call,
        awaiting,
        references,
    ) is Ok
}

/// A stored query of the input controller can still be asked.
pub open spec fn query_valid(program: ProgramGeneration, operation: InputOperation, count: usize) -> bool {
    !(operation is KeyActive) && program.snake_input && has_input_service(
        program,
        form_binding::input_text(operation),
        count,
    )
}

/// A stored step is in a state that it can be in.
#[verifier::opaque]
pub open spec fn task_valid(
    vm: VmModel,
    fiber: FiberId,
    form: Form,
    program: ProgramGeneration,
    references: Seq<bool>,
    progress: Seq<ArrayLeaseId>,
    t: Task,
) -> bool {
    match t {
        Task::GateInputHost(plan, key, _) => program.snake_input && planned_as(
            form,
            program,
            plan,
            key,
            BytecodeType::Integer,
        ),
        Task::FinishInputHost(operation, count) => query_valid(program, operation, count),
        Task::ReadInputHost(_, _) => false,
        Task::MapCapture(bound, site, arguments) => form_effects::map_planned(
            form,
            program,
            bound,
            site,
            arguments,
        ),
        Task::MapFinish(call) => form_effects::map_valid(vm, fiber, form, call),
        Task::MapValuesEnabled(call, output) => form_effects::map_valid(vm, fiber, form, call)
            && form_effects::output_valid(program, call, output),
        Task::BitCapture(spec, site, source) => form_staged::bit_planned(
            vm,
            form,
            spec,
            site,
            source,
        ),
        Task::BitFinish(call) => form_staged::bit_valid(vm, form, call, progress),
        Task::FinishNative(site, bound, source) => form_calls::native_planned(
            form,
            program,
            site,
            bound,
            source,
        ),
        Task::MethodArgument(call) => user_call_valid(
            vm,
            form,
            program,
            call,
            false,
            references,
        ),
        Task::CaptureMethodArgument(call) => user_call_valid(
            vm,
            form,
            program,
            call,
            true,
            references,
        ),
        Task::ResolveMethod(plan, result, fallback, arguments) => optional_as(
            form,
            program,
            plan,
            fallback,
            result.kind(),
        ) && method_arguments_planned(form, program, plan, arguments),
        Task::ExistVarFirst(plan, source, mode) => planned_as(
            form,
            program,
            plan,
            source,
            BytecodeType::String,
        ) && optional_as(form, program, plan, mode, BytecodeType::Integer),
        Task::ExistVarMode(plan, source) => planned_as(
            form,
            program,
            plan,
            source,
            BytecodeType::String,
        ),
        Task::MutateVariable(variable, indices, mode) => form_queries::mutation_valid(
            vm,
            form,
            variable,
            indices as nat,
            mode,
        ),
        Task::ParseCallText(_, spec) => form_symbols::root_spec(form) == Some(spec),
        _ => true,
    }
}

/// A boundary fits the frame that owns the evaluation.
pub open spec fn boundary_fits(owner: FrameModel, c: FormatCheckpoint) -> bool {
    c.owner_stack_depth <= owner.stack.len() && c.owner_user_calls == owner.user_calls.len()
}

/// A user call that an evaluation waits for is under way, or has left its result.
#[verifier::opaque]
pub open spec fn wait_valid(
    vm: VmModel,
    fiber: FiberModel,
    form: Form,
    program: ProgramGeneration,
    at: int,
    facts: MethodFacts,
) -> bool {
    match form.awaiting {
        None => true,
        Some(wait) => {
            let owner = fiber.frames[at];
            &&& user_call_valid(vm, form, program, wait.call, false, facts.waiting@)
            &&& if at + 1 < fiber.frames.len() {
                form_methods::is_child(form, fiber.frames[at + 1], facts.origin)
                    && owner.stack.len() == wait.owner_stack_depth
            } else {
                match wait.call.call.mode.expected() {
                    None => owner.stack.len() == wait.owner_stack_depth,
                    Some(t) => owner.stack.len() == wait.owner_stack_depth + 1
                        && owner.stack.last().value_type() == t,
                }
            }
        },
    }
}

/// No map is held twice.
pub open spec fn distinct_maps(leases: Seq<MapLease>) -> bool {
    forall|i: int, j: int|
        0 <= i < j < leases.len() ==> #[trigger] leases[i] != #[trigger] leases[j]
}

/// A stored evaluation is in a state that it can be in.
pub open spec fn method_state_valid(
    vm: VmModel,
    fiber: FiberModel,
    form: Form,
    facts: MethodFacts,
) -> bool {
    match (
        vm.program(form.generation),
        lookup::first_index(fiber.frames, state::frame_is(form.frame)),
    ) {
        (Some(program), Some(at)) => {
            &&& form.next_reference_scope > 0
            &&& form_plans::plans_valid(vm, form)
            &&& form_checkpoints::checkpoints_valid(form)
            &&& forall|i: int|
                0 <= i < form.checkpoints.len() ==> boundary_fits(
                    fiber.frames[at],
                    #[trigger] form.checkpoints[i],
                )
            &&& wait_valid(vm, fiber, form, program, at, facts)
            &&& form.next_map_call > 0
            &&& distinct_maps(form_effects::held_maps(form.work))
            &&& form.next_bit_call > 0
            &&& forall|i: int|
                0 <= i < form.work.len() ==> task_valid(
                    vm,
                    fiber.id,
                    form,
                    program,
                    references_at(facts, i),
                    facts.progress@,
                    #[trigger] form.work[i],
                )
            &&& form_resources::checked(form, vm.config.maximum_operand_stack) is Ok
        },
        _ => false,
    }
}

fn find_input_service(program: &ProgramGeneration, name: &str, count: usize) -> (r: bool)
    ensures
        r == has_input_service(*program, name@, count),
{
    let ghost p = input_service(name@, count);
    let mut i: usize = 0;
    while i < program.host_imports.len()
        invariant
            i <= program.host_imports.len(),
            p == input_service(name@, count),
            forall|j: int| 0 <= j < i ==> !p(#[trigger] program.host_imports@[j]),
        decreases program.host_imports.len() - i,
    {
        let import = &program.host_imports[i].import;
        let integer = match import.result {
            Some(t) => t == BytecodeType::Integer,
            None => false,
        };
        if integer && import.parameters.len() == count && text::same_text(
            import.namespace.as_str(),
            "rustyera.input",
        ) && text::eq_ignore_ascii_case(import.name.as_str(), name) {
            assert(p(program.host_imports@[i as int]));
            return true;
        }
        i = i + 1;
    }
    false
}

fn all_distinct(leases: &Vec<MapLease>) -> (r: bool)
    ensures
        r == distinct_maps(leases@),
{
    let mut i: usize = 0;
    while i < leases.len()
        invariant
            i <= leases.len(),
            forall|a: int, b: int|
                0 <= a < b < leases@.len() && a < i ==> #[trigger] leases@[a] != #[trigger] leases@[b],
        decreases leases.len() - i,
    {
        let mut k: usize = i + 1;
        while k < leases.len()
            invariant
                i < k <= leases.len(),
                forall|b: int| i < b < k ==> leases@[i as int] != #[trigger] leases@[b],
            decreases leases.len() - k,
        {
            if leases[i] == leases[k] {
                assert(leases@[i as int] == leases@[k as int]);
                return false;
            }
            k = k + 1;
        }
        i = i + 1;
    }
    true
}

impl RuntimeFormContinuation {
    fn is_planned_as(
        &self,
        program: &ProgramGeneration,
        plan: u64,
        e: &Rc<Expr>,
        kind: BytecodeType,
    ) -> (r: bool)
        ensures
            r == planned_as(self@, *program, plan, e@, kind),
    {
        self.validate_planned_expression(program, plan, e) && match self.planned_expression_type(
            plan,
            e,
        ) {
            Ok(t) => t == kind,
            Err(_) => false,
        }
    }

    fn is_optional_as(
        &self,
        program: &ProgramGeneration,
        plan: u64,
        e: &Option<Rc<Expr>>,
        kind: BytecodeType,
    ) -> (r: bool)
        ensures
            r == optional_as(self@, *program, plan, ast::argument_tree(*e), kind),
    {
        match e {
            None => true,
            Some(e) => self.is_planned_as(program, plan, e, kind),
        }
    }

    fn plans_arguments(
        &self,
        program: &ProgramGeneration,
        plan: u64,
        arguments: &Vec<Option<Rc<Expr>>>,
    ) -> (r: bool)
        ensures
            r == method_arguments_planned(
                self@,
                *program,
                plan,
                ast::argument_trees(arguments@),
            ),
    {
        let ghost all = ast::argument_trees(arguments@);
        proof {
            ast::lemma_argument_trees(arguments@);
        }
        let mut i: usize = 0;
        while i < arguments.len()
            invariant
                i <= arguments.len(),
                all == ast::argument_trees(arguments@),
                all.len() == arguments@.len(),
                forall|j: int|
                    0 <= j < arguments@.len() ==> #[trigger] all[j] == ast::argument_tree(
                        arguments@[j],
                    ),
                forall|j: int|
                    0 <= j < i ==> (match #[trigger] all[j] {
                        None => true,
                        Some(t) => self@.plan_has(*program, plan, t),
                    }) && self@.planned_spec(*program, plan, all[j]) is Ok,
            decreases arguments.len() - i,
        {
            assert(all[i as int] == ast::argument_tree(arguments@[i as int]));
            let here = match &arguments[i] {
                None => true,
                Some(e) => self.validate_planned_expression(program, plan, e),
            };
            if !here || self.planned_argument_spec(program, plan, &arguments[i]).is_err() {
                return false;
            }
            i = i + 1;
        }
        true
    }
}

impl RuntimeFormContinuation {
    fn valid_user_call(
        &self,
        vm: &Vm,
        program: &ProgramGeneration,
        call: &RuntimeUserCall,
        awaiting: bool,
        references: &Vec<bool>,
    ) -> (r: bool)
        ensures
            r == user_call_valid(vm@, self@, *program, call@, awaiting, references@),
    {
        self.valid_method_sources(program, call) && self.validate_method_call(
            vm,
            call,
            awaiting,
            references,
        ).is_ok()
    }

    #[verifier::rlimit(30)]
    fn valid_task(
        &self,
        vm: &Vm,
        fiber: FiberId,
        program: &ProgramGeneration,
        references: &Vec<bool>,
        progress: &Vec<ArrayLeaseId>,
        task: &RuntimeFormTask,
    ) -> (r: bool)
        ensures
            r == task_valid(
                vm@,
                fiber,
                self@,
                *program,
                references@,
                progress@,
                task@,
            ),
    {
        proof {
            reveal(task_valid);
        }
        match task {
            RuntimeFormTask::GateInputHost { plan, key, .. } => program.snake_input
                && self.is_planned_as(program, *plan, key, BytecodeType::Integer),
            RuntimeFormTask::FinishInputHost { operation, count } => *operation
                != InputOperation::KeyActive && program.snake_input && find_input_service(
                program,
                form_binding::input_name(*operation),
                *count,
            ),
            RuntimeFormTask::ReadInputHost { .. } => false,
            RuntimeFormTask::MapCapture { bound, site, arguments } => self.valid_map_binding(
                program,
                bound,
                *site,
                arguments,
            ),
            RuntimeFormTask::MapFinish(call) => self.valid_map_task(vm, fiber, call),
            RuntimeFormTask::MapValuesEnabled { call, output } => self.valid_map_task(
                vm,
                fiber,
                call,
            ) && form_effects::valid_map_output_source(program, call, output),
            RuntimeFormTask::BitCapture { spec, site, source } => self.valid_bit_capture(
                vm,
                *spec,
                *site,
                source,
            ),
            RuntimeFormTask::BitFinish(call) => self.valid_bit_task(vm, call, progress),
            RuntimeFormTask::FinishNative { site, bound, source } => self.valid_native_task(
                program,
                *site,
                bound,
                source,
            ),
            RuntimeFormTask::MethodArgument(call) => self.valid_user_call(
                vm,
                program,
                call,
                false,
                references,
            ),
            RuntimeFormTask::CaptureMethodArgument(call) => self.valid_user_call(
                vm,
                program,
                call,
                true,
                references,
            ),
            RuntimeFormTask::ResolveMethod { plan, result, fallback, arguments } => {
                self.is_optional_as(program, *plan, fallback, result.bytecode_type())
                    && self.plans_arguments(program, *plan, arguments)
            },
            RuntimeFormTask::ExistVarFirst { plan, source, mode } => self.is_planned_as(
                program,
                *plan,
                source,
                BytecodeType::String,
            ) && self.is_optional_as(program, *plan, mode, BytecodeType::Integer),
            RuntimeFormTask::ExistVarMode { plan, source } => self.is_planned_as(
                program,
                *plan,
                source,
                BytecodeType::String,
            ),
            RuntimeFormTask::MutateVariable { variable, indices, mode } => {
                self.valid_mutation_task(vm, *variable, *indices, *mode)
            },
            RuntimeFormTask::ParseCallText { spec, .. } => match self.call_text_spec() {
                Some(s) => s == *spec,
                None => false,
            },
            _ => true,
        }
    }

    fn valid_wait(
        &self,
        vm: &Vm,
        fiber: &Fiber,
        program: &ProgramGeneration,
        at: usize,
        facts: &MethodFacts,
    ) -> (r: bool)
        requires
            at < fiber@.frames.len(),
        ensures
            r == wait_valid(vm@, fiber@, self@, *program, at as int, *facts),
    {
        proof {
            reveal(wait_valid);
        }
        let wait = match &self.awaiting_user_call {
            None => {
                return true;
            },
            Some(w) => w,
        };
        if !self.valid_user_call(vm, program, &wait.call, false, &facts.waiting) {
            return false;
        }
        assert(fiber@.frames.len() == fiber.frames@.len());
        assert(fiber@.frames[at as int] == fiber.frames@[at as int]@);
        let owner = &fiber.frames[at];
        assert(owner@.stack.len() == owner.stack@.len());
        let depth: usize = owner.stack.len();
        let count: usize = fiber.frames.len();
        if at + 1 < count {
            assert(fiber@.frames[at + 1] == fiber.frames@[at + 1]@);
            return self.valid_child_call(&fiber.frames[at + 1], facts.origin) && depth
                == wait.owner_stack_depth;
        }
        match wait.call.call.mode.expected_result() {
            None => depth == wait.owner_stack_depth,
            Some(t) => {
                if depth == 0 || depth - 1 != wait.owner_stack_depth {
                    return false;
                }
                assert(owner@.stack.last() == owner.stack@.last()@);
                owner.stack[depth - 1].value_type() == t
            },
        }
    }

    /// Tells whether this stored evaluation is in a state that it can be in.
    #[verifier::loop_isolation(false)]
    pub fn valid_method_state(&self, vm: &Vm, fiber: &Fiber, facts: &MethodFacts) -> (r: bool)
        requires
            vm@.program(self@.generation) matches Some(p) ==> form_typing::results_scalar(p),
        ensures
            r == method_state_valid(vm@, fiber@, self@, *facts),
    {
        let program = match vm.program(self.generation) {
            None => {
                return false;
            },
            Some(p) => p,
        };
        let at: usize = match places::find_frame(fiber, self.frame) {
            None => {
                return false;
            },
            Some(i) => i,
        };
        if self.next_reference_scope == 0 || !self.valid_call_plans(vm)
            || !self.checkpoints_valid() {
            return false;
        }
        let ghost owned = fiber@.frames[at as int];
        assert(owned == fiber.frames@[at as int]@);
        let owner = &fiber.frames[at];
        assert(owned.stack.len() == owner.stack@.len());
        assert(owned.user_calls.len() == owner.user_calls@.len());
        let mut i: usize = 0;
        while i < self.checkpoints.len()
            invariant
                i <= self.checkpoints.len(),
                forall|j: int|
                    0 <= j < i ==> boundary_fits(owned, #[trigger] self@.checkpoints[j]),
            decreases self.checkpoints.len() - i,
        {
            let c = self.checkpoints[i];
            if c.owner_stack_depth > owner.stack.len() || c.owner_user_calls
                != owner.user_calls.len() {
                assert(!boundary_fits(owned, self@.checkpoints[i as int]));
                return false;
            }
            i = i + 1;
        }
        if !self.valid_wait(vm, fiber, &program, at, facts) || self.next_map_call == 0
            || self.next_bit_call == 0 || !all_distinct(&self.map_leases()) {
            return false;
        }
        let none: Vec<bool> = Vec::new();
        assert(none@ =~= Seq::<bool>::empty());
        assert(self@.work.len() == self.work@.len());
        let ghost loaded = vm@.program(self@.generation)->0;
        let mut k: usize = 0;
        while k < self.work.len()
            invariant
                k <= self.work.len(),
                forall|j: int|
                    0 <= j < k ==> task_valid(
                        vm@,
                        fiber@.id,
                        self@,
                        loaded,
                        references_at(*facts, j),
                        facts.progress@,
                        #[trigger] self@.work[j],
                    ),
            decreases self.work.len() - k,
        {
            assert(self@.work[k as int] == self.work@[k as int]@);
            let references = if k < facts.references.len() {
                &facts.references[k]
            } else {
                &none
            };
            if !self.valid_task(
                vm,
                fiber.id,
                &program,
                references,
                &facts.progress,
                &self.work[k],
            ) {
                return false;
            }
            k = k + 1;
        }
        self.check_resources(vm).is_ok()
    }
}

} // verus!
