//! Starting, resuming and ending an evaluation.

use vstd::prelude::*;
use crate::bit_calls;
use crate::calls::{HostReply, ReplyModel};
use crate::existvar::invalid;
use crate::fault::{self, Failure, StepError, VmFaultCode};
use crate::form_binding::{self, NativeProviders};
use crate::form_call_text;
use crate::form_frontend::{self, Parsed, ParsedForm};
use crate::form_pump;
use crate::form_queries::{self, AskedInput, InputRequest};
use crate::form_resources;
use crate::form_steps::{self, FormRequest, RuntimeFormStep, Stepped, World};
use crate::form_support;
use crate::form_typing;
use crate::forms::{
    self, Form, Plan, RuntimeFormContinuation, RuntimeFormRoot, RuntimeFormTask, Task,
    MAX_RUNTIME_FORM_BYTES,
};
use crate::lookup;
use crate::program::CallTextSpec;
use crate::state::{self, Fiber, FiberModel, FiberState, FrameModel, Vm, VmModel};
use crate::value::{BytecodeType, FrameId, GenerationId, SymbolKey};

verus! {

/// An evaluation that a step can be made of.
pub open spec fn steppable(vm: VmModel, form: Form) -> bool {
    &&& vm.program(form.generation) is Some
    &&& form.instruction <= u32::MAX
    &&& form.pending matches Some(p) ==> form_pump::sound(p) && form_call_text::roots_known(
        p.graph,
    )
}

impl RuntimeFormContinuation {
    /// Makes one step. Where it gives a request, the reply goes to
    /// [`RuntimeFormContinuation::answer`].
    pub fn step(
        &mut self,
        vm: &mut Vm,
        fiber: &mut Fiber,
        natives: &NativeProviders,
        host_calls: &mut u32,
    ) -> (r: Result<RuntimeFormStep, StepError>)
        requires
            steppable(old(vm)@, old(self)@),
        ensures
            (
                World {
                    vm: final(vm)@,
                    fiber: final(fiber)@,
                    form: final(self)@,
                    calls: *final(host_calls),
                },
                fault::outcome(r),
            ) == form_steps::stepped(
                World {
                    vm: old(vm)@,
                    fiber: old(fiber)@,
                    form: old(self)@,
                    calls: *old(host_calls),
                },
                *natives,
            ),
    {
        if self.awaiting_user_call.is_some() {
            return Ok(RuntimeFormStep::Request(FormRequest::UserWait));
        }
        let ghost work = self@.work;
        assert(work.len() == self.work@.len());
        let task = match self.work.pop() {
            None => {
                return Err(invalid("STRFORM continuation ended without a result"));
            },
            Some(t) => t,
        };
        proof {
            assert(work.last() == task@);
            assert(forms::task_views(self.work@) =~= work.drop_last());
        }
        let ghost w = World { vm: vm@, fiber: fiber@, form: self@, calls: *host_calls };
        let made = match self.operator_turn(vm, fiber, Ghost(w), task) {
            Ok(step) => step,
            Err(task) => match self.text_turn(vm, fiber, Ghost(w), task) {
                Ok(step) => step,
                Err(task) => match self.call_turn(vm, fiber, natives, Ghost(w), task) {
                    Ok(step) => step,
                    Err(task) => match self.service_turn(vm, fiber, host_calls, Ghost(w), task) {
                        Ok(step) => step,
                        Err(_) => Ok(RuntimeFormStep::Pending),
                    },
                },
            },
        };
        match made {
            Ok(RuntimeFormStep::Pending) => match self.check_resources(vm) {
                Err(e) => Err(e),
                Ok(_) => Ok(RuntimeFormStep::Pending),
            },
            other => other,
        }
    }
}

/// An evaluation goes back to the frame that owns it.
pub open spec fn put_back(
    fiber: FiberModel,
    form: Form,
    gone: Seq<char>,
    second: Seq<char>,
) -> (FiberModel, Result<(), Failure>) {
    match lookup::first_index(fiber.frames, state::frame_is(form.frame)) {
        None => (fiber, Err(Failure::invalid(gone))),
        Some(i) => (
            FiberModel {
                frames: fiber.frames.update(
                    i,
                    FrameModel { runtime_form: Some(form), ..fiber.frames[i] },
                ),
                ..fiber
            },
            if fiber.frames[i].runtime_form is Some {
                Err(Failure::invalid(second))
            } else {
                Ok(())
            },
        ),
    }
}

/// Machine, fiber, calls of the host and end of a step of the evaluation that the running frame
/// owns.
pub open spec fn resumed(vm: VmModel, fiber: FiberModel, calls: u32, providers: NativeProviders) -> (
    VmModel,
    FiberModel,
    u32,
    Result<Stepped, Failure>,
) {
    if fiber.frames.len() == 0 {
        (vm, fiber, calls, Err(Failure::invalid("STRFORM continuation frame is missing"@)))
    } else {
        match fiber.top().runtime_form {
            None => (vm, fiber, calls, Err(Failure::invalid("STRFORM continuation is missing"@))),
            Some(form) => {
                let idle = fiber.with_top(FrameModel { runtime_form: None, ..fiber.top() });
                let (w, r) = form_steps::stepped(
                    World { vm, fiber: idle, form, calls },
                    providers,
                );
                match r {
                    Ok(Stepped::Complete(_)) => (w.vm, w.fiber, w.calls, r),
                    Ok(Stepped::CompleteCall) => (w.vm, w.fiber, w.calls, r),
                    Ok(_) => match put_back(
                        w.fiber,
                        w.form,
                        "STRFORM owner frame disappeared"@,
                        "STRFORM owner acquired a second continuation"@,
                    ) {
                        (last, Err(e)) => (w.vm, last, w.calls, Err(e)),
                        (last, Ok(_)) => (w.vm, last, w.calls, r),
                    },
                    Err(failure) => match put_back(
                        w.fiber,
                        w.form,
                        "STRFORM error owner disappeared"@,
                        "STRFORM error owner already has a continuation"@,
                    ) {
                        (last, Err(e)) => (w.vm, last, w.calls, Err(e)),
                        (last, Ok(_)) => (w.vm, last, w.calls, Err(failure)),
                    },
                }
            },
        }
    }
}

fn return_form(
    fiber: &mut Fiber,
    form: RuntimeFormContinuation,
    gone: &str,
    second: &str,
) -> (r: Result<(), StepError>)
    ensures
        (final(fiber)@, form_resources::unit_result(r)) == put_back(
            old(fiber)@,
            form@,
            gone@,
            second@,
        ),
{
    match form_support::owner_frame_mut(fiber, form.frame) {
        Err(_) => Err(invalid(gone)),
        Ok(owner) => {
            let taken = owner.runtime_form.is_some();
            owner.runtime_form = Some(form);
            if taken {
                Err(invalid(second))
            } else {
                Ok(())
            }
        },
    }
}

/// Makes one step of the evaluation that the running frame owns.
pub fn resume_runtime_form(
    vm: &mut Vm,
    fiber: &mut Fiber,
    natives: &NativeProviders,
    host_calls: &mut u32,
) -> (r: Result<RuntimeFormStep, StepError>)
    requires
        old(fiber)@.frames.len() > 0 ==> (old(fiber)@.top().runtime_form matches Some(f)
            ==> steppable(old(vm)@, f)),
    ensures
        (final(vm)@, final(fiber)@, *final(host_calls), fault::outcome(r)) == resumed(
            old(vm)@,
            old(fiber)@,
            *old(host_calls),
            *natives,
        ),
{
    if fiber.frames.len() == 0 {
        return Err(invalid("STRFORM continuation frame is missing"));
    }
    let top = fiber.top_mut();
    let mut form = match top.runtime_form.take() {
        None => {
            return Err(invalid("STRFORM continuation is missing"));
        },
        Some(f) => f,
    };
    match form.step(vm, fiber, natives, host_calls) {
        Ok(RuntimeFormStep::Complete(v)) => Ok(RuntimeFormStep::Complete(v)),
        Ok(RuntimeFormStep::CompleteCall) => Ok(RuntimeFormStep::CompleteCall),
        Ok(step) => match return_form(
            fiber,
            form,
            "STRFORM owner frame disappeared",
            "STRFORM owner acquired a second continuation",
        ) {
            Err(e) => Err(e),
            Ok(_) => Ok(step),
        },
        Err(failure) => match return_form(
            fiber,
            form,
            "STRFORM error owner disappeared",
            "STRFORM error owner already has a continuation",
        ) {
            Err(e) => Err(e),
            Ok(_) => Err(failure),
        },
    }
}

/// An evaluation with nothing done yet.
pub open spec fn fresh(
    generation: GenerationId,
    function: SymbolKey,
    frame: FrameId,
    instruction: usize,
    completion: RuntimeFormRoot,
    task: Task,
    nodes: usize,
) -> Form {
    Form {
        generation,
        function,
        frame,
        instruction,
        work: seq![Task::CompleteRoot, task],
        values: Seq::empty(),
        outputs: Seq::empty(),
        awaiting: None,
        checkpoints: Seq::empty(),
        next_checkpoint: 1,
        host_calls: Seq::empty(),
        next_host_scope: 1,
        next_map_call: 1,
        next_reference_scope: 1,
        next_bit_call: 1,
        completion,
        pending: None,
        reference_bindings: false,
        plans: Seq::empty(),
        current_plan: None,
        next_plan: 1,
        remaining_nodes: nodes,
        remaining_bytes: MAX_RUNTIME_FORM_BYTES,
    }
}

/// The nodes that an evaluation may have.
pub open spec fn node_limit(vm: VmModel) -> usize {
    if vm.config.maximum_operand_stack == 0 {
        1
    } else {
        vm.config.maximum_operand_stack
    }
}

/// The running frame starts an evaluation.
pub open spec fn work_begun(
    vm: VmModel,
    fiber: FiberModel,
    generation: GenerationId,
    function: SymbolKey,
    instruction: usize,
    completion: RuntimeFormRoot,
    task: Task,
) -> (FiberModel, Result<(), Failure>) {
    if fiber.frames.len() == 0 {
        (fiber, Err(Failure::invalid("runtime-form caller frame is missing"@)))
    } else {
        let owner = fiber.top();
        if owner.runtime_form is Some || owner.generation != generation || owner.function
            != function {
            (
                fiber,
                Err(Failure::invalid("runtime-form caller identity or continuation differs"@)),
            )
        } else {
            (
                fiber.with_top(
                    FrameModel {
                        runtime_form: Some(
                            fresh(
                                generation,
                                function,
                                owner.id,
                                instruction,
                                completion,
                                task,
                                node_limit(vm),
                            ),
                        ),
                        ..owner
                    },
                ),
                Ok(()),
            )
        }
    }
}

/// The running frame starts to evaluate a formatted text.
pub open spec fn form_begun(
    vm: VmModel,
    fiber: FiberModel,
    providers: NativeProviders,
    generation: GenerationId,
    function: SymbolKey,
    instruction: usize,
    source: Seq<char>,
    parsed: Parsed,
) -> (FiberModel, Result<(), Failure>) {
    if fiber.frames.len() == 0 {
        (fiber, Err(Failure::invalid("STRFORM caller frame is missing"@)))
    } else if fiber.top().runtime_form is Some {
        (fiber, Err(Failure::invalid("STRFORM caller already owns a continuation"@)))
    } else {
        match form_frontend::source_checked(source) {
            Err(e) => (fiber, Err(e)),
            Ok(_) => match form_frontend::form_accepted(
                vm,
                providers,
                generation,
                function,
                parsed,
                node_limit(vm),
            ) {
                Err(e) => (fiber, Err(e)),
                Ok((f, plan)) => {
                    let base = fresh(
                        generation,
                        function,
                        fiber.top().id,
                        instruction,
                        RuntimeFormRoot::Value(BytecodeType::String),
                        Task::StartForm(f),
                        form_call_text::lowered(node_limit(vm), plan.nodes),
                    );
                    let form = Form {
                        plans: seq![Plan { id: 1, ..plan }],
                        current_plan: Some(1),
                        next_plan: 2,
                        remaining_bytes: (MAX_RUNTIME_FORM_BYTES - form_resources::size(
                            source,
                        )) as usize,
                        ..base
                    };
                    (
                        fiber.with_top(
                            FrameModel { runtime_form: Some(form), ..fiber.top() },
                        ),
                        Ok(()),
                    )
                },
            },
        }
    }
}

fn make(
    vm: &Vm,
    generation: GenerationId,
    function: SymbolKey,
    frame: FrameId,
    instruction: usize,
    completion: RuntimeFormRoot,
    task: RuntimeFormTask,
) -> (r: RuntimeFormContinuation)
    ensures
        r@ == fresh(
            generation,
            function,
            frame,
            instruction,
            completion,
            task@,
            node_limit(vm@),
        ),
{
    let mut work: Vec<RuntimeFormTask> = Vec::new();
    work.push(RuntimeFormTask::CompleteRoot);
    work.push(task);
    let limit: usize = if vm.config.maximum_operand_stack == 0 {
        1
    } else {
        vm.config.maximum_operand_stack
    };
    let r = RuntimeFormContinuation {
        generation,
        function,
        frame,
        instruction,
        work,
        values: Vec::new(),
        outputs: Vec::new(),
        awaiting_user_call: None,
        checkpoints: Vec::new(),
        next_checkpoint: 1,
        host_calls: Vec::new(),
        next_host_scope: 1,
        next_map_call: 1,
        next_reference_scope: 1,
        next_bit_call: 1,
        completion,
        reference_arguments: None,
        reference_bindings: false,
        call_plans: Vec::new(),
        current_call_plan: None,
        next_call_plan: 1,
        remaining_nodes: limit,
        remaining_source_bytes: MAX_RUNTIME_FORM_BYTES,
    };
    let ghost model = fresh(
        generation,
        function,
        frame,
        instruction,
        completion,
        task@,
        node_limit(vm@),
    );
    assert(r@.work =~= model.work);
    assert(r@.values =~= model.values);
    assert(r@.outputs =~= model.outputs);
    assert(r@.host_calls =~= model.host_calls);
    assert(r@.plans =~= model.plans);
    assert(r@.checkpoints =~= model.checkpoints);
    r
}

fn begin_work(
    vm: &Vm,
    fiber: &mut Fiber,
    generation: GenerationId,
    function: SymbolKey,
    instruction: usize,
    completion: RuntimeFormRoot,
    task: RuntimeFormTask,
) -> (r: Result<(), StepError>)
    ensures
        (final(fiber)@, form_resources::unit_result(r)) == work_begun(
            vm@,
            old(fiber)@,
            generation,
            function,
            instruction,
            completion,
            task@,
        ),
{
    if fiber.frames.len() == 0 {
        return Err(invalid("runtime-form caller frame is missing"));
    }
    let owner = fiber.top_mut();
    if owner.runtime_form.is_some() || owner.generation != generation || owner.function
        != function {
        return Err(invalid("runtime-form caller identity or continuation differs"));
    }
    owner.runtime_form = Some(
        make(vm, generation, function, owner.id, instruction, completion, task),
    );
    Ok(())
}

/// Lets the running frame check a formatted text: the evaluation gives one or zero.
pub fn begin_runtime_form_check(
    vm: &Vm,
    fiber: &mut Fiber,
    generation: GenerationId,
    function: SymbolKey,
    instruction: usize,
    source: String,
) -> (r: Result<(), StepError>)
    ensures
        (final(fiber)@, form_resources::unit_result(r)) == work_begun(
            vm@,
            old(fiber)@,
            generation,
            function,
            instruction,
            RuntimeFormRoot::Value(BytecodeType::Integer),
            Task::BeginCheckedForm(source@),
        ),
{
    begin_work(
        vm,
        fiber,
        generation,
        function,
        instruction,
        RuntimeFormRoot::Value(BytecodeType::Integer),
        RuntimeFormTask::BeginCheckedForm(source),
    )
}

/// Lets the running frame make a call that is given as text.
pub fn begin_runtime_call_text(
    vm: &Vm,
    fiber: &mut Fiber,
    generation: GenerationId,
    function: SymbolKey,
    instruction: usize,
    source: String,
    spec: CallTextSpec,
) -> (r: Result<(), StepError>)
    ensures
        (final(fiber)@, form_resources::unit_result(r)) == match vm@.program(generation) {
            None => (
                old(fiber)@,
                Err::<(), Failure>(form_call_text::text_generation_missing()),
            ),
            Some(program) => if !program.call_text {
                (
                    old(fiber)@,
                    Err(
                        bit_calls::forbidden(
                            "CALLSTR is unavailable in this compatibility identity"@,
                        ),
                    ),
                )
            } else {
                work_begun(
                    vm@,
                    old(fiber)@,
                    generation,
                    function,
                    instruction,
                    RuntimeFormRoot::Call { spec, failed: false },
                    Task::ParseCallText(source@, spec),
                )
            },
        },
{
    let allowed = match vm.program(generation) {
        None => {
            return Err(StepError::new(VmFaultCode::MissingSymbol, "CALLSTR generation is missing"));
        },
        Some(p) => p.call_text,
    };
    if !allowed {
        return Err(
            form_binding::permission_denied(
                "CALLSTR is unavailable in this compatibility identity",
            ),
        );
    }
    begin_work(
        vm,
        fiber,
        generation,
        function,
        instruction,
        RuntimeFormRoot::Call { spec, failed: false },
        RuntimeFormTask::ParseCallText { source, spec },
    )
}

/// Lets the running frame evaluate a formatted text; `parsed` is what the parser made of its
/// source.
pub fn begin_runtime_form(
    vm: &Vm,
    fiber: &mut Fiber,
    natives: &NativeProviders,
    generation: GenerationId,
    function: SymbolKey,
    instruction: usize,
    source: &str,
    parsed: ParsedForm,
) -> (r: Result<(), StepError>)
    requires
        vm@.program(generation) matches Some(p) ==> form_typing::results_scalar(p),
    ensures
        (final(fiber)@, form_resources::unit_result(r)) == form_begun(
            vm@,
            old(fiber)@,
            *natives,
            generation,
            function,
            instruction,
            source@,
            parsed@,
        ),
{
    if fiber.frames.len() == 0 {
        return Err(invalid("STRFORM caller frame is missing"));
    }
    if fiber.top().runtime_form.is_some() {
        return Err(invalid("STRFORM caller already owns a continuation"));
    }
    match form_frontend::preflight_source(source) {
        Err(e) => {
            return Err(e);
        },
        Ok(_) => {},
    }
    let limit: usize = if vm.config.maximum_operand_stack == 0 {
        1
    } else {
        vm.config.maximum_operand_stack
    };
    let (formatted, plan) = match form_frontend::parse_runtime_form(
        vm,
        natives,
        generation,
        function,
        parsed,
        limit,
    ) {
        Err(e) => {
            return Err(e);
        },
        Ok(p) => p,
    };
    let nodes: usize = plan.nodes;
    let mut plan = plan;
    plan.id = 1;
    let owner = fiber.top_mut();
    let mut form = make(
        vm,
        generation,
        function,
        owner.id,
        instruction,
        RuntimeFormRoot::Value(BytecodeType::String),
        RuntimeFormTask::StartForm(formatted),
    );
    form.remaining_nodes = if limit >= nodes {
        limit - nodes
    } else {
        0
    };
    form.remaining_source_bytes = MAX_RUNTIME_FORM_BYTES - form_resources::byte_count(source);
    form.call_plans.push(plan);
    assert(forms::plan_views(form.call_plans@) =~= seq![plan@]);
    form.current_call_plan = Some(1);
    form.next_call_plan = 2;
    owner.runtime_form = Some(form);
    Ok(())
}

/// A query of the input controller was answered: the limits are checked, or the host is waited for.
pub open spec fn input_settled(
    vm: VmModel,
    fiber: FiberModel,
    form: Form,
    ask: AskedInput,
    reply: ReplyModel,
) -> (VmModel, FiberModel, Result<Stepped, Failure>) {
    let (after, last, r) = form_queries::input_replied(vm, fiber, ask, reply);
    (
        after,
        last,
        match r {
            Err(e) => Err(e),
            Ok(_) => if last.state is WaitingHost {
                Ok(Stepped::Blocked)
            } else {
                match form_resources::checked(form, after.config.maximum_operand_stack) {
                    Err(e) => Err(e),
                    Ok(_) => Ok(Stepped::Pending),
                }
            },
        },
    )
}

impl RuntimeFormContinuation {
    /// Takes the answer to a query of the input controller.
    pub fn finish_input_host(
        &self,
        vm: &mut Vm,
        fiber: &mut Fiber,
        ask: InputRequest,
        reply: HostReply,
    ) -> (r: Result<RuntimeFormStep, StepError>)
        requires
            old(fiber)@.frames.len() > 0,
        ensures
            (final(vm)@, final(fiber)@, fault::outcome(r)) == input_settled(
                old(vm)@,
                old(fiber)@,
                self@,
                ask@,
                reply@,
            ),
    {
        match form_queries::take_input_reply(vm, fiber, ask, reply) {
            Err(e) => {
                return Err(e);
            },
            Ok(_) => {},
        }
        match &fiber.state {
            FiberState::WaitingHost(_) => {
                return Ok(RuntimeFormStep::Blocked);
            },
            _ => {},
        }
        match self.check_resources(vm) {
            Err(e) => Err(e),
            Ok(_) => Ok(RuntimeFormStep::Pending),
        }
    }
}

/// An evaluation that was just begun over a text can be stepped.
pub proof fn law_begun_evaluation_is_steppable(
    vm: VmModel,
    fiber: FiberModel,
    providers: NativeProviders,
    generation: GenerationId,
    function: SymbolKey,
    instruction: usize,
    source: Seq<char>,
    parsed: Parsed,
)
    requires
        form_begun(vm, fiber, providers, generation, function, instruction, source, parsed).1 is Ok,
        instruction <= u32::MAX,
    ensures
        ({
            let after = form_begun(
                vm,
                fiber,
                providers,
                generation,
                function,
                instruction,
                source,
                parsed,
            ).0;
            after.top().runtime_form matches Some(form) && steppable(vm, form)
        }),
{
}

/// An evaluation that was just begun with a first step can be stepped.
pub proof fn law_begun_work_is_steppable(
    vm: VmModel,
    fiber: FiberModel,
    generation: GenerationId,
    function: SymbolKey,
    instruction: usize,
    completion: RuntimeFormRoot,
    task: Task,
)
    requires
        work_begun(vm, fiber, generation, function, instruction, completion, task).1 is Ok,
        vm.program(generation) is Some,
        instruction <= u32::MAX,
    ensures
        ({
            let after = work_begun(
                vm,
                fiber,
                generation,
                function,
                instruction,
                completion,
                task,
            ).0;
            after.top().runtime_form matches Some(form) && steppable(vm, form)
        }),
{
}

/// An evaluation that is valid for its frame can be stepped.
pub proof fn law_valid_evaluation_is_steppable(
    vm: VmModel,
    form: Form,
    generation: GenerationId,
    function: SymbolKey,
    frame: FrameId,
    maximum: usize,
)
    requires
        crate::form_symbols::frame_valid(form, generation, function, frame, maximum),
        vm.program(generation) is Some,
        form.instruction <= u32::MAX,
    ensures
        steppable(vm, form),
{
    if let Some(p) = form.pending {
        form_pump::law_valid_reduction_is_sound(p);
        let g = p.graph;
        assert forall|i: int| 0 <= i < g.roots.len() implies (#[trigger] g.roots[i] matches Some(e)
            ==> form_pump::term_known(g, e)) by {
            assert(crate::form_reduction::root_replaced(g, i));
            assert(g.template.roots[i] matches Some(r) ==> r < g.template.nodes.len());
        }
    }
}

} // verus!
