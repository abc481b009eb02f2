//! Answers to what an evaluation has asked for.

use vstd::prelude::*;
use std::rc::Rc;
use crate::ast::{self, Expr};
use crate::bit_calls::{self, BitReply};
use crate::extended_ops;
use crate::fault::{self, Failure, StepError, VmError};
use crate::form_binding::NativeProviders;
use crate::form_call_text::{self, ParsedCallText};
use crate::form_effects::{self, MapAsk, MapReply};
use crate::form_frontend::ParsedForm;
use crate::form_methods::{self, Advanced, MethodAdvance};
use crate::form_pump;
use crate::form_queries;
use crate::form_resources;
use crate::form_services::{self, NativeFinish};
use crate::form_staged;
use crate::form_steps::{RuntimeFormStep, Stepped};
use crate::form_typing;
use crate::forms::{
    Form, FormBitCall, FormMatch, MapWorkCall, MatchStage, MatchState, RuntimeCallSite,
    RuntimeFormContinuation, RuntimeUserCall,
};
use crate::program::{BitCallSpec, BoundRuntimeNative, CallTextSpec, MatchCallSpec};
use crate::services::{self, NativeReady};
use crate::state::{self, Fiber, FiberModel, Vm, VmModel};
use crate::value::{ArrayLeaseId, BytecodeType, Val, VmValue};

verus! {

/// The answer to a request of an evaluation.
#[allow(inconsistent_fields)]
pub enum FormReply {
    /// The callee has come back; tells for each argument whether it is a reference.
    Returned { references: Vec<bool> },
    /// The host was called; tells whether it is waited for.
    HostCalled(Result<bool, StepError>),
    BitCaptured {
        slot: u64,
        spec: BitCallSpec,
        site: RuntimeCallSite,
        source: Vec<Option<Rc<Expr>>>,
        lease: Result<ArrayLeaseId, VmError>,
    },
    BitWorked { call: FormBitCall, reply: BitReply },
    Predicate { node: u32, plain: bool },
    FormParsed(ParsedForm),
    CallTextParsed { spec: CallTextSpec, parsed: ParsedCallText, kind: Result<(), StepError> },
    Probed { id: u64, probe: Result<(), StepError> },
    MapCaptured {
        bound: Rc<BoundRuntimeNative>,
        site: RuntimeCallSite,
        arguments: Vec<Option<Rc<Expr>>>,
        ask: MapAsk,
        map: Result<MapReply, StepError>,
    },
    /// `release` is how giving the map back went, where it was to be given back.
    MapValues { call: MapWorkCall, output: Option<Rc<Expr>>, release: Result<(), StepError> },
    /// The service of a MAP call was called over an owner's stack of this depth.
    MapServed { depth: usize, served: Result<(), StepError> },
    MatchCaptured {
        matched: Rc<MatchCallSpec>,
        site: RuntimeCallSite,
        arguments: Vec<Option<Rc<Expr>>>,
        captured: Result<MatchState, StepError>,
    },
    MatchWorked {
        stage: MatchStage,
        match_call: FormMatch,
        state: Result<MatchState, StepError>,
        done: bool,
    },
    Mutated(Result<VmValue, StepError>),
    /// `rollback` is how putting the state of the service back went, where its reply was refused.
    Served {
        expected: Option<BytecodeType>,
        depth: usize,
        ready: NativeReady,
        rollback: Result<(), String>,
    },
    Padded(Result<String, StepError>),
    Method { user_call: RuntimeUserCall, references: Vec<bool> },
    ReferenceCaptured { user_call: RuntimeUserCall, array: Result<VmValue, VmError> },
    Entered { user_call: RuntimeUserCall, depth: usize, entered: Result<(), VmError> },
    ArgumentCaptured { user_call: RuntimeUserCall, argument: Result<VmValue, StepError> },
    ExistsMethod(i64),
}

/// What an evaluation comes to with an answer.
pub enum FormAnswer {
    Step(RuntimeFormStep),
    /// A user call needs this next.
    Method(MethodAdvance),
}

/// Mathematical content of a [`FormAnswer`].
#[verifier::ext_equal]
pub enum Answered {
    Step(Stepped),
    Method(Advanced),
}

impl View for FormAnswer {
    type V = Answered;

    open spec fn view(&self) -> Answered {
        match self {
            FormAnswer::Step(s) => Answered::Step(s@),
            FormAnswer::Method(m) => Answered::Method(m@),
        }
    }
}

/// The answer fits the evaluation: it belongs to a request that was made.
pub open spec fn reply_fits(vm: VmModel, fiber: FiberModel, form: Form, reply: FormReply) -> bool {
    match reply {
        FormReply::BitWorked { call, reply } => call@.value_depth <= form.values.len(),
        FormReply::FormParsed(_) => vm.program(form.generation) matches Some(p)
            ==> form_typing::results_scalar(p),
        FormReply::CallTextParsed { .. } => vm.program(form.generation) matches Some(p)
            ==> form_typing::results_scalar(p),
        FormReply::MapCaptured { ask, .. } => vm.program(form.generation) matches Some(p)
            && ask@.kind < p.map_operations@.len(),
        FormReply::Served { .. } => fiber.frames.len() > 0,
        FormReply::ReferenceCaptured { user_call, .. } => {
            &&& user_call@.specs.len() == user_call@.arguments.len()
            &&& user_call@.captured.len() <= user_call@.specs.len()
            &&& user_call@.next_slot < user_call@.captured.len()
        },
        FormReply::ArgumentCaptured { user_call, .. } => {
            &&& user_call@.next_slot < user_call@.captured.len()
            &&& user_call@.captured.len() <= user_call@.arguments.len()
        },
        _ => true,
    }
}

/// An answer that was taken leaves more to do.
pub open spec fn taken(r: Result<(), Failure>) -> Result<Answered, Failure> {
    match r {
        Ok(_) => Ok(Answered::Step(Stepped::Pending)),
        Err(e) => Err(e),
    }
}

/// A user call that waits for an argument leaves more to do.
pub open spec fn advanced(r: Result<Advanced, Failure>) -> Result<Answered, Failure> {
    match r {
        Ok(Advanced::Scheduled) => Ok(Answered::Step(Stepped::Pending)),
        Ok(a) => Ok(Answered::Method(a)),
        Err(e) => Err(e),
    }
}

pub open spec fn blocked_result(r: Result<bool, StepError>) -> Result<Answered, Failure> {
    match r {
        Ok(true) => Ok(Answered::Step(Stepped::Blocked)),
        Ok(false) => Ok(Answered::Step(Stepped::Pending)),
        Err(e) => Err(e@),
    }
}

/// MAP_VALUES goes on, or its map was given back.
pub open spec fn map_values_ended(r: Result<bool, Failure>, release: Result<(), Failure>) -> Result<
    (),
    Failure,
> {
    match r {
        Ok(true) => Ok(()),
        Ok(false) => form_effects::given_back(Ok(()), release),
        Err(e) => form_effects::given_back(Err(e), release),
    }
}

pub open spec fn map_misplaced() -> Seq<char> {
    "MAP form completion has unexpected stack effect"@
}

/// The reply of a service was taken, or the failure that is left once its state was put back.
pub open spec fn served(r: Result<Option<Failure>, Failure>, rollback: Result<(), Seq<char>>) -> Result<
    (),
    Failure,
> {
    match r {
        Ok(None) => Ok(()),
        Ok(Some(e)) => Err(form_services::native_undone(e, rollback)),
        Err(e) => Err(e),
    }
}

/// Machine, fiber and evaluation after an answer was taken, before the limits are checked.
pub open spec fn replied(
    vm: VmModel,
    fiber: FiberModel,
    form: Form,
    providers: NativeProviders,
    reply: FormReply,
) -> (VmModel, FiberModel, Form, Result<Answered, Failure>) {
    match reply {
        FormReply::Returned { references } => {
            let (f, after, r) = form_methods::wait_finished(vm, fiber, form, references@);
            (vm, f, after, taken(r))
        },
        FormReply::HostCalled(r) => (vm, fiber, form, blocked_result(r)),
        FormReply::BitCaptured { slot, spec, site, source, lease } => {
            let (after, r) = form_staged::bit_started(
                form,
                slot,
                spec,
                site,
                ast::argument_trees(source@),
                bit_calls::lease_result(lease),
            );
            (vm, fiber, after, taken(r))
        },
        FormReply::BitWorked { call, reply } => {
            let (v, after, r) = form_staged::bit_resumed(vm, form, call@, reply@);
            (v, fiber, after, taken(r))
        },
        FormReply::Predicate { node, plain } => {
            let (after, r) = form_pump::predicate_answered(vm, form, node, plain);
            (vm, fiber, after, taken(r))
        },
        FormReply::FormParsed(parsed) => {
            let (after, r) = form_services::source_ended(vm, providers, form, parsed@);
            (vm, fiber, after, taken(r))
        },
        FormReply::CallTextParsed { spec, parsed, kind } => {
            let (after, r) = form_call_text::text_parsed(
                vm,
                providers,
                form,
                spec,
                parsed@,
                form_resources::unit_result(kind),
            );
            (vm, fiber, after, taken(r))
        },
        FormReply::Probed { id, probe } => {
            let (after, r) = form_queries::probe_ended(
                form,
                id,
                form_resources::unit_result(probe),
            );
            (vm, fiber, after, taken(r))
        },
        FormReply::MapCaptured { bound, site, arguments, ask, map } => {
            let (after, r) = form_effects::map_started(
                vm.program(form.generation)->0,
                form,
                bound@,
                site,
                ast::argument_trees(arguments@),
                ask@,
                form_effects::reply_result(map),
            );
            (vm, fiber, after, taken(r))
        },
        FormReply::MapValues { call, output, release } => {
            let (after, r) = form_effects::values_enabled(
                vm,
                fiber.id,
                form,
                call@,
                ast::argument_tree(output),
            );
            (
                vm,
                fiber,
                after,
                taken(map_values_ended(r, form_resources::unit_result(release))),
            )
        },
        FormReply::MapServed { depth, served } => match served {
            Err(e) => (vm, fiber, form, Err(e@)),
            Ok(_) => {
                let (f, after, r) = form_effects::owner_result(
                    fiber,
                    form,
                    depth as nat,
                    map_misplaced(),
                );
                (vm, f, after, taken(r))
            },
        },
        FormReply::MatchCaptured { matched, site, arguments, captured } => {
            let (after, r) = form_staged::match_started(
                form,
                matched@,
                site,
                ast::argument_trees(arguments@),
                form_staged::scan_result(captured),
            );
            (vm, fiber, after, taken(r))
        },
        FormReply::MatchWorked { stage, match_call, state, done } => {
            let (after, r) = form_staged::match_resumed(
                form,
                stage,
                match_call@,
                form_staged::scan_result(state),
                done,
            );
            (vm, fiber, after, taken(r))
        },
        FormReply::Mutated(value) => {
            let (after, r) = form_queries::mutation_ended(form, fault::outcome(value));
            (vm, fiber, after, taken(r))
        },
        FormReply::Served { expected, depth, ready, rollback } => {
            let (v, f, after, r) = form_services::native_ended(
                vm,
                fiber,
                form,
                expected,
                depth as nat,
                state::optional_val(ready.value),
                extended_ops::writes_of(ready.writes@),
            );
            (v, f, after, taken(served(r, services::text_result(rollback))))
        },
        FormReply::Padded(text) => match text {
            Err(e) => (vm, fiber, form, Err(e@)),
            Ok(t) => {
                let (after, r) = form_resources::appended(form, t@);
                (vm, fiber, after, taken(r))
            },
        },
        FormReply::Method { user_call, references } => {
            let (after, r) = form_methods::call_advanced(
                vm,
                fiber,
                form,
                user_call@,
                references@,
            );
            (vm, fiber, after, advanced(r))
        },
        FormReply::ReferenceCaptured { user_call, array } => {
            let (after, r) = form_methods::reference_captured(
                fiber,
                form,
                user_call@,
                fault::result(array),
            );
            (vm, fiber, after, advanced(r))
        },
        FormReply::Entered { user_call, depth, entered } => {
            let (after, r) = form_methods::callee_entered(
                fiber,
                form,
                user_call@,
                depth,
                form_methods::entry_result(entered),
            );
            (vm, fiber, after, taken(r))
        },
        FormReply::ArgumentCaptured { user_call, argument } => {
            let (after, r) = form_services::capture_ended(
                form,
                user_call@,
                fault::outcome(argument),
            );
            (vm, fiber, after, taken(r))
        },
        FormReply::ExistsMethod(answer) => (
            vm.without_path_memo(fiber.id),
            fiber,
            form.with_value(Val::Integer(answer)),
            Ok(Answered::Step(Stepped::Pending)),
        ),
    }
}

/// Machine, fiber and evaluation after an answer. An evaluation that has more to do stays within
/// the limits of the machine, or the answer ends in the failure of a limit.
pub open spec fn answered(
    vm: VmModel,
    fiber: FiberModel,
    form: Form,
    providers: NativeProviders,
    reply: FormReply,
) -> (VmModel, FiberModel, Form, Result<Answered, Failure>) {
    let (v, f, after, r) = replied(vm, fiber, form, providers, reply);
    if r == Ok::<Answered, Failure>(Answered::Step(Stepped::Pending)) {
        match form_resources::checked(after, v.config.maximum_operand_stack) {
            Err(e) => (v, f, after, Err(e)),
            Ok(_) => (v, f, after, r),
        }
    } else {
        (v, f, after, r)
    }
}

fn pending(r: Result<(), StepError>) -> (q: Result<FormAnswer, StepError>)
    ensures
        fault::outcome(q) == taken(form_resources::unit_result(r)),
{
    match r {
        Ok(_) => Ok(FormAnswer::Step(RuntimeFormStep::Pending)),
        Err(e) => Err(e),
    }
}

fn going(r: Result<MethodAdvance, StepError>) -> (q: Result<FormAnswer, StepError>)
    ensures
        fault::outcome(q) == advanced(fault::outcome(r)),
{
    match r {
        Ok(MethodAdvance::Scheduled) => Ok(FormAnswer::Step(RuntimeFormStep::Pending)),
        Ok(a) => Ok(FormAnswer::Method(a)),
        Err(e) => Err(e),
    }
}

impl RuntimeFormContinuation {
    fn take_answer(
        &mut self,
        vm: &mut Vm,
        fiber: &mut Fiber,
        natives: &NativeProviders,
        reply: FormReply,
    ) -> (r: Result<FormAnswer, StepError>)
        requires
            reply_fits(old(vm)@, old(fiber)@, old(self)@, reply),
        ensures
            (final(vm)@, final(fiber)@, final(self)@, fault::outcome(r)) == replied(
                old(vm)@,
                old(fiber)@,
                old(self)@,
                *natives,
                reply,
            ),
    {
        match reply {
            FormReply::Returned { references } => pending(
                self.finish_user_wait(vm, fiber, &references),
            ),
            FormReply::HostCalled(r) => match r {
                Ok(true) => Ok(FormAnswer::Step(RuntimeFormStep::Blocked)),
                Ok(false) => Ok(FormAnswer::Step(RuntimeFormStep::Pending)),
                Err(e) => Err(e),
            },
            FormReply::BitCaptured { slot, spec, site, source, lease } => pending(
                self.start_bit(slot, spec, site, source, lease),
            ),
            FormReply::BitWorked { call, reply } => pending(self.resume_bit(vm, call, reply)),
            FormReply::Predicate { node, plain } => pending(
                self.finish_reference_form_predicate(vm, node, plain),
            ),
            FormReply::FormParsed(parsed) => pending(
                self.finish_form_source(vm, natives, parsed),
            ),
            FormReply::CallTextParsed { spec, parsed, kind } => pending(
                self.parse_call_text(vm, natives, spec, parsed, kind),
            ),
            FormReply::Probed { id, probe } => pending(self.finish_expression_probe(id, probe)),
            FormReply::MapCaptured { bound, site, arguments, ask, map } => match vm.program(
                self.generation,
            ) {
                Some(program) => pending(
                    self.start_map(&program, bound, site, arguments, ask, map),
                ),
                None => Ok(FormAnswer::Step(RuntimeFormStep::Pending)),
            },
            FormReply::MapValues { call, output, release } => {
                let r = match self.map_values_enabled(vm, fiber.id, call, &output) {
                    Ok(true) => Ok(()),
                    Ok(false) => form_effects::after_release(Ok(()), release),
                    Err(e) => form_effects::after_release(Err(e), release),
                };
                pending(r)
            },
            FormReply::MapServed { depth, served } => match served {
                Err(e) => Err(e),
                Ok(_) => pending(
                    self.take_owner_result(
                        fiber,
                        depth,
                        "MAP form completion has unexpected stack effect",
                    ),
                ),
            },
            FormReply::MatchCaptured { matched, site, arguments, captured } => pending(
                self.start_match(matched, arguments, site, captured),
            ),
            FormReply::MatchWorked { stage, match_call, state, done } => pending(
                self.resume_match(stage, match_call, state, done),
            ),
            FormReply::Mutated(value) => pending(self.mutate_variable(value)),
            FormReply::Served { expected, depth, ready, rollback } => match self.finish_native(
                vm,
                fiber,
                expected,
                depth,
                ready,
            ) {
                Ok(NativeFinish::Done) => Ok(FormAnswer::Step(RuntimeFormStep::Pending)),
                Ok(NativeFinish::Undo(e)) => Err(form_services::undo_native(e, rollback)),
                Err(e) => Err(e),
            },
            FormReply::Padded(text) => match text {
                Err(e) => Err(e),
                Ok(t) => pending(self.append_output(t.as_str())),
            },
            FormReply::Method { user_call, references } => going(
                self.advance_method_arguments(vm, fiber, user_call, &references),
            ),
            FormReply::ReferenceCaptured { user_call, array } => going(
                self.finish_reference_capture(fiber, user_call, array),
            ),
            FormReply::Entered { user_call, depth, entered } => pending(
                self.finish_entering(fiber, user_call, depth, entered),
            ),
            FormReply::ArgumentCaptured { user_call, argument } => pending(
                self.finish_argument_capture(user_call, argument),
            ),
            FormReply::ExistsMethod(answer) => {
                self.finish_exists_method(vm, fiber.id, answer);
                Ok(FormAnswer::Step(RuntimeFormStep::Pending))
            },
        }
    }

    /// Takes the answer to a request and checks the limits of the machine. Queries of the input
    /// controller are answered by [`RuntimeFormContinuation::finish_input_host`].
    pub fn answer(
        &mut self,
        vm: &mut Vm,
        fiber: &mut Fiber,
        natives: &NativeProviders,
        reply: FormReply,
    ) -> (r: Result<FormAnswer, StepError>)
        requires
            reply_fits(old(vm)@, old(fiber)@, old(self)@, reply),
        ensures
            (final(vm)@, final(fiber)@, final(self)@, fault::outcome(r)) == answered(
                old(vm)@,
                old(fiber)@,
                old(self)@,
                *natives,
                reply,
            ),
    {
        match self.take_answer(vm, fiber, natives, reply) {
            Ok(FormAnswer::Step(RuntimeFormStep::Pending)) => match self.check_resources(vm) {
                Err(e) => Err(e),
                Ok(_) => Ok(FormAnswer::Step(RuntimeFormStep::Pending)),
            },
            other => other,
        }
    }
}

/// An evaluation that has more to do after an answer stays within the limits of the machine; where
/// it would not, the answer ends in the failure of a limit.
pub proof fn law_answers_keep_the_limits(
    vm: VmModel,
    fiber: FiberModel,
    form: Form,
    providers: NativeProviders,
    reply: FormReply,
)
    ensures
        ({
            let (v, f, after, r) = answered(vm, fiber, form, providers, reply);
            let before = replied(vm, fiber, form, providers, reply).3;
            let limits = form_resources::checked(after, v.config.maximum_operand_stack);
            &&& r == Ok::<Answered, Failure>(Answered::Step(Stepped::Pending)) ==> limits is Ok
            &&& before == Ok::<Answered, Failure>(Answered::Step(Stepped::Pending)) && limits is Err
                ==> (r matches Err(e) && e.code is ResourceLimit)
        }),
{
}

} // verus!
