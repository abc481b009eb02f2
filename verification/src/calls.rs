//! Calls of functions and services.

use vstd::prelude::*;
use std::rc::Rc;
use crate::array_ops;
use crate::arrays;
use crate::basic::{self, Step};
use crate::character_ops;
use crate::character_query;
use crate::extended_ops;
use crate::fault::{self, Failure, StepError, Trouble, VmError, VmFaultCode};
use crate::faults::{self, OriginModel};
use crate::frames;
use crate::lookup;
use crate::memo::{self, FunctionMemoEntry};
use crate::operand;
use crate::places;
use crate::program::{
    BytecodeFunction, BytecodeFunctionKind, BytecodeParameter, HostImport, ImportKind, NativeImport,
    Opcode, ProgramGeneration, RuntimeImport,
};
use crate::services::{self, NativeReady, NativeService};
use crate::sorting;
use crate::state::{
    self, At, ExecutionPolicy, Fiber, FiberModel, FiberState, FrameModel, HostWaitStability,
    InstructionPosition, Outcome, StateModel, StepOutcome, Vm, VmExecutionOrigin, VmModel,
    WaitModel, WaitingHost,
};
use crate::terminal;
use crate::text;
use crate::value::{self, BytecodeType, FrameId, SymbolKey, Val, VmValue};

verus! {

/// Byte `i` of an operand is one.
pub open spec fn flag_in(payload: Seq<u8>, i: int) -> bool {
    i < payload.len() && payload[i] == 1
}

fn read_flag(payload: &[u8], i: usize) -> (r: bool)
    ensures
        r == flag_in(payload@, i as int),
{
    i < payload.len() && payload[i] == 1
}

/// A function can be called in the way that is asked for.
pub open spec fn kind_fits(program: ProgramGeneration, function: BytecodeFunction, method: bool) -> bool {
    if method {
        function.kind is Method
    } else {
        !(function.kind is Method) && (!(function.kind is Event)
            || program.call_compatibility.allow_event_as_normal)
    }
}

/// A frame that goes on at the instruction for a missing function, with the empty name.
pub open spec fn skipped(frame: FrameModel, stack: Seq<Val>, target: u32) -> FrameModel {
    FrameModel {
        stack: stack.push(Val::Text(Seq::empty())),
        instruction: target as usize,
        ..frame
    }
}

/// Looks a function up by the name on the stack.
pub open spec fn resolve_step(vm: VmModel, fiber: FiberModel, at: At) -> Step {
    match operand::u32_at(at.payload, 0) {
        Err(e) => basic::fail(vm, fiber, e),
        Ok(missing) => {
            let (stack, name) = operand::popped_text(
                fiber.top().stack,
                "dynamic function target must be a string"@,
            );
            let popped = fiber.with_stack(stack);
            match name {
                Err(e) => basic::fail(vm, popped, e),
                Ok(name) => {
                    let program = vm.program(at.generation)->0;
                    match program.spec_function_by_name(name) {
                        Some(target) => if kind_fits(program, *target, flag_in(at.payload, 5)) {
                            basic::go(
                                vm,
                                fiber.with_stack(stack.push(Val::Text(target.name@))),
                            )
                        } else if flag_in(at.payload, 5) && flag_in(at.payload, 4) {
                            basic::go(vm, fiber.with_top(skipped(fiber.top(), stack, missing)))
                        } else {
                            basic::fail(
                                vm,
                                popped,
                                basic::mismatch(
                                    "dynamic target "@ + name
                                        + " has an incompatible function kind"@,
                                ),
                            )
                        },
                        None => if flag_in(at.payload, 4) {
                            basic::go(vm, fiber.with_top(skipped(fiber.top(), stack, missing)))
                        } else {
                            basic::fail(
                                vm,
                                popped,
                                Failure::of(
                                    VmFaultCode::MissingSymbol,
                                    "dynamic function "@ + name + " is missing"@,
                                ),
                            )
                        },
                    }
                },
            }
        },
    }
}

/// Arguments whose places are read where the parameter takes a value, among the first `n`.
pub open spec fn loaded(
    vm: VmModel,
    fiber: FiberModel,
    parameters: Seq<BytecodeParameter>,
    arguments: Seq<Val>,
    n: nat,
) -> Result<Seq<Val>, Trouble>
    decreases n,
{
    if n == 0 {
        Ok(Seq::empty())
    } else {
        let k = n - 1;
        match loaded(vm, fiber, parameters, arguments, k as nat) {
            Err(e) => Err(e),
            Ok(before) => if k < parameters.len() && !parameters[k].by_reference {
                match arguments[k] {
                    Val::IntegerPlace(p) => match places::read_place(vm, fiber, p) {
                        Ok(v) => Ok(before.push(v)),
                        Err(e) => Err(e),
                    },
                    Val::StringPlace(p) => match places::read_place(vm, fiber, p) {
                        Ok(v) => Ok(before.push(v)),
                        Err(e) => Err(e),
                    },
                    v => Ok(before.push(v)),
                }
            } else {
                Ok(before.push(arguments[k]))
            },
        }
    }
}

proof fn lemma_loaded_stops(
    vm: VmModel,
    fiber: FiberModel,
    parameters: Seq<BytecodeParameter>,
    arguments: Seq<Val>,
    k: nat,
    n: nat,
)
    requires
        k <= n,
        loaded(vm, fiber, parameters, arguments, k) is Err,
    ensures
        loaded(vm, fiber, parameters, arguments, n) == loaded(vm, fiber, parameters, arguments, k),
    decreases n,
{
    if k < n {
        lemma_loaded_stops(vm, fiber, parameters, arguments, k, (n - 1) as nat);
    }
}

/// Calls the function whose name lies under its arguments.
pub open spec fn invoke_dynamic_step(vm: VmModel, fiber: FiberModel, at: At) -> Step {
    match operand::u16_at(at.payload, 0) {
        Err(e) => basic::fail(vm, fiber, e),
        Ok(count) => {
            let tail = flag_in(at.payload, 2);
            let kept = if tail {
                vm.without_path_memo(fiber.id)
            } else {
                vm
            };
            let numbered = VmModel { next_frame: kept.next_frame.wrapping_add(1), ..kept };
            let (rest, arguments) = operand::popped_arguments(fiber.top().stack, count as nat);
            match arguments {
                Err(e) => basic::fail(numbered, fiber.with_stack(rest), e),
                Ok(arguments) => {
                    let (stack, name) = operand::popped_text(
                        rest,
                        "resolved function target must be a string"@,
                    );
                    let popped = fiber.with_stack(stack);
                    match name {
                        Err(e) => basic::fail(numbered, popped, e),
                        Ok(name) => {
                            let program = vm.program(at.generation)->0;
                            match program.spec_function_by_name(name) {
                                None => basic::fail(
                                    numbered,
                                    popped,
                                    Failure::of(
                                        VmFaultCode::MissingSymbol,
                                        "resolved function disappeared"@,
                                    ),
                                ),
                                Some(target) => invoked(
                                    numbered,
                                    popped,
                                    at,
                                    program,
                                    *target,
                                    arguments,
                                    FrameId(vm.next_frame),
                                    tail,
                                ),
                            }
                        },
                    }
                },
            }
        },
    }
}

/// Calls a function that was found by name.
pub open spec fn invoked(
    vm: VmModel,
    fiber: FiberModel,
    at: At,
    program: ProgramGeneration,
    target: BytecodeFunction,
    arguments: Seq<Val>,
    id: FrameId,
    tail: bool,
) -> Step {
    match loaded(vm, fiber, target.parameters@, arguments, arguments.len()) {
        Err(e) => basic::fail(vm, fiber, fault::mapped(e)),
        Ok(values) => match frames::prepared(target, values, program.call_compatibility) {
            Err(e) => basic::fail(vm, fiber, fault::mapped(e)),
            Ok(given) => {
                let bound = memo::bound_statics(vm, program, target, given);
                let frame = frames::fresh_frame(
                    id,
                    at.generation,
                    program,
                    target,
                    given,
                    false,
                    fiber.top().event_context || target.kind is Event,
                );
                if let Err(e) = bound.1 {
                    basic::fail(bound.0, fiber, fault::mapped(e))
                } else if tail {
                    basic::go(bound.0, fiber.with_top(frame))
                } else if fiber.frames.len() >= vm.config.maximum_call_depth {
                    basic::fail(bound.0, fiber, depth_exceeded())
                } else {
                    basic::go(bound.0, FiberModel { frames: fiber.frames.push(frame), ..fiber })
                }
            },
        },
    }
}

pub open spec fn depth_exceeded() -> Failure {
    Failure::of(VmFaultCode::ResourceLimit, "maximum call depth exceeded"@)
}

fn push_frame(fiber: &mut Fiber, frame: state::Frame)
    ensures
        final(fiber)@ == (FiberModel {
            frames: old(fiber)@.frames.push(frame@),
            ..old(fiber)@
        }),
{
    let ghost before = fiber.frames@;
    fiber.frames.push(frame);
    assert(state::frame_views(fiber.frames@) =~= state::frame_views(before).push(frame@));
}

impl Vm {
    fn load_arguments(
        &self,
        fiber: &Fiber,
        parameters: &Vec<BytecodeParameter>,
        arguments: &Vec<VmValue>,
    ) -> (r: Result<Vec<VmValue>, VmError>)
        ensures
            match r {
                Ok(v) => loaded(
                    self@,
                    fiber@,
                    parameters@,
                    value::vals(arguments@),
                    arguments@.len(),
                ) == Ok::<Seq<Val>, Trouble>(value::vals(v@)),
                Err(e) => loaded(
                    self@,
                    fiber@,
                    parameters@,
                    value::vals(arguments@),
                    arguments@.len(),
                ) == Err::<Seq<Val>, Trouble>(e@),
            },
    {
        let ghost all = value::vals(arguments@);
        let mut out: Vec<VmValue> = Vec::new();
        let mut k: usize = 0;
        assert(value::vals(out@) =~= Seq::<Val>::empty());
        while k < arguments.len()
            invariant
                k <= arguments.len(),
                all == value::vals(arguments@),
                loaded(self@, fiber@, parameters@, all, k as nat) == Ok::<Seq<Val>, Trouble>(
                    value::vals(out@),
                ),
            decreases arguments.len() - k,
        {
            proof {
                if loaded(self@, fiber@, parameters@, all, (k + 1) as nat) is Err {
                    lemma_loaded_stops(
                        self@,
                        fiber@,
                        parameters@,
                        all,
                        (k + 1) as nat,
                        arguments@.len(),
                    );
                }
                assert(all[k as int] == arguments@[k as int]@);
            }
            let by_value: bool = k < parameters.len() && !parameters[k].by_reference;
            let v: VmValue = match &arguments[k] {
                VmValue::IntegerPlace(p) => {
                    if by_value {
                        match self.read_place(fiber, p) {
                            Ok(v) => v,
                            Err(e) => {
                                return Err(e);
                            },
                        }
                    } else {
                        arguments[k].clone()
                    }
                },
                VmValue::StringPlace(p) => {
                    if by_value {
                        match self.read_place(fiber, p) {
                            Ok(v) => v,
                            Err(e) => {
                                return Err(e);
                            },
                        }
                    } else {
                        arguments[k].clone()
                    }
                },
                _ => arguments[k].clone(),
            };
            basic::push(&mut out, v);
            k = k + 1;
        }
        Ok(out)
    }

    fn step_resolve(&mut self, fiber: &mut Fiber, position: &InstructionPosition<'_>) -> (r: Result<
        StepOutcome,
        StepError,
    >)
        requires
            old(fiber)@.frames.len() > 0,
            terminal::position_resolves(old(self)@, position@),
        ensures
            (final(self)@, final(fiber)@, fault::outcome(r)) == resolve_step(
                old(self)@,
                old(fiber)@,
                position@,
            ),
    {
        let missing: u32 = match operand::read_u32(position.payload, 0) {
            Ok(n) => n,
            Err(e) => {
                return Err(e);
            },
        };
        let allow_missing: bool = read_flag(position.payload, 4);
        let method: bool = read_flag(position.payload, 5);
        let frame = fiber.top_mut();
        let name = match operand::pop_text(
            &mut frame.stack,
            "dynamic function target must be a string",
        ) {
            Ok(t) => t,
            Err(e) => {
                return Err(e);
            },
        };
        let program = match self.program(position.generation) {
            Some(p) => p,
            None => {
                return Err(StepError::new(VmFaultCode::MissingSymbol, ""));
            },
        };
        let fits: Option<bool> = match program.function_by_name(name.as_str()) {
            Some(target) => {
                let fits = if method {
                    target.kind == BytecodeFunctionKind::Method
                } else {
                    target.kind != BytecodeFunctionKind::Method && (target.kind
                        != BytecodeFunctionKind::Event
                        || program.call_compatibility.allow_event_as_normal)
                };
                if fits {
                    basic::push(&mut frame.stack, VmValue::String(target.name.clone()));
                    return Ok(StepOutcome::Continue);
                }
                Some(fits)
            },
            None => None,
        };
        if allow_missing && (method || fits.is_none()) {
            let empty = String::new();
            proof {
                reveal_strlit("");
                assert(empty@ =~= Seq::<char>::empty());
            }
            basic::push(&mut frame.stack, VmValue::String(empty));
            frame.instruction = missing as usize;
            return Ok(StepOutcome::Continue);
        }
        if fits.is_some() {
            let message = text::join3(
                "dynamic target ",
                name.as_str(),
                " has an incompatible function kind",
            );
            Err(StepError::new(VmFaultCode::TypeMismatch, message.as_str()))
        } else {
            let message = text::join3("dynamic function ", name.as_str(), " is missing");
            Err(StepError::new(VmFaultCode::MissingSymbol, message.as_str()))
        }
    }

    #[verifier::rlimit(40)]
    fn step_invoke_dynamic(&mut self, fiber: &mut Fiber, position: &InstructionPosition<'_>) -> (r:
        Result<StepOutcome, StepError>)
        requires
            old(fiber)@.frames.len() > 0,
            terminal::position_resolves(old(self)@, position@),
        ensures
            (final(self)@, final(fiber)@, fault::outcome(r)) == invoke_dynamic_step(
                old(self)@,
                old(fiber)@,
                position@,
            ),
    {
        let count: u16 = match operand::read_u16(position.payload, 0) {
            Ok(n) => n,
            Err(e) => {
                return Err(e);
            },
        };
        let tail: bool = read_flag(position.payload, 2);
        let program = match self.program(position.generation) {
            Some(p) => p,
            None => {
                return Err(StepError::new(VmFaultCode::MissingSymbol, ""));
            },
        };
        if tail {
            self.invalidate_path_memo(fiber.id);
        }
        let id = self.allocate_frame_id();
        let frame = fiber.top_mut();
        let arguments = match operand::pop_arguments(&mut frame.stack, count as usize) {
            Ok(v) => v,
            Err(e) => {
                return Err(e);
            },
        };
        let name = match operand::pop_text(
            &mut frame.stack,
            "resolved function target must be a string",
        ) {
            Ok(t) => t,
            Err(e) => {
                return Err(e);
            },
        };
        let target = match program.function_by_name(name.as_str()) {
            Some(f) => f,
            None => {
                return Err(
                    StepError::new(VmFaultCode::MissingSymbol, "resolved function disappeared"),
                );
            },
        };
        let values = match self.load_arguments(&*fiber, &target.parameters, &arguments) {
            Ok(v) => v,
            Err(e) => {
                return Err(fault::map_vm_error(e));
            },
        };
        let given = match frames::prepare_dynamic_arguments(
            target,
            values,
            program.call_compatibility,
        ) {
            Ok(v) => v,
            Err(e) => {
                return Err(fault::map_vm_error(e));
            },
        };
        let ghost numbered = self@;
        self.memory.ensure_function_statics(&*program, target.key);
        let stored = self.memory.bind_persistent_arguments(target, &given);
        assert(self@ =~= memo::bound_statics(
            numbered,
            *program,
            *target,
            value::vals(given@),
        ).0);
        match stored {
            Ok(_) => {},
            Err(e) => {
                return Err(fault::map_vm_error(e));
            },
        }
        let event_context: bool = fiber.top().event_context || target.kind
            == BytecodeFunctionKind::Event;
        let frame = frames::make_frame(
            id,
            position.generation,
            &*program,
            target,
            given,
            false,
            event_context,
        );
        if tail {
            *fiber.top_mut() = frame;
            Ok(StepOutcome::Continue)
        } else if fiber.frames.len() >= self.config.maximum_call_depth {
            Err(StepError::new(VmFaultCode::ResourceLimit, "maximum call depth exceeded"))
        } else {
            push_frame(fiber, frame);
            Ok(StepOutcome::Continue)
        }
    }
}

/// What the cache of results holds for a call.
pub enum FunctionLookup {
    /// The call has no place in the cache.
    NoKey,
    Missed,
    Found(FunctionMemoEntry),
}

/// What the recorded paths hold for a call.
pub enum PathLookup {
    /// The call cannot be recorded.
    NoHead,
    Missed,
    /// A recorded path fits; its body has so many instructions.
    Replayed { entry: FunctionMemoEntry, instructions: u64 },
}

/// What the caches hold for a call.
pub struct CallMemo {
    /// An earlier call of the selector of a planned read.
    pub selector: Option<FunctionMemoEntry>,
    pub function: FunctionLookup,
    pub path: PathLookup,
}

/// A step that repeats an earlier call: its writes are made, and its result is pushed.
pub open spec fn repeated(
    vm: VmModel,
    fiber: FiberModel,
    entry: FunctionMemoEntry,
    outcome: Outcome,
) -> Step {
    let done = extended_ops::writes_done(
        vm,
        fiber,
        extended_ops::writes_of(entry.effects@),
    );
    match done.2 {
        Err(e) => basic::fail(done.0, done.1, fault::mapped(e)),
        Ok(_) => (
            done.0,
            done.1.with_stack(done.1.top().stack.push(entry.result@)),
            Ok(outcome),
        ),
    }
}

/// The cache of results may serve a call, and has a place for it.
pub open spec fn is_keyed(
    target: BytecodeFunction,
    recording: bool,
    policy: ExecutionPolicy,
    memo: CallMemo,
) -> bool {
    policy.allow_function_memo && !recording && target.code@.len() < policy.remaining_quantum
        && !(memo.function is NoKey)
}

/// The call may be recorded.
pub open spec fn is_recordable(
    program: ProgramGeneration,
    target: BytecodeFunction,
    recording: bool,
    policy: ExecutionPolicy,
    memo: CallMemo,
) -> bool {
    policy.allow_function_memo && !recording && target.result is Some && memo::indexed_plan(
        program,
        target.key,
    ) is None && !(memo.path is NoHead)
}

/// Enters a function.
pub open spec fn entered(
    vm: VmModel,
    fiber: FiberModel,
    at: At,
    program: ProgramGeneration,
    target: BytecodeFunction,
    arguments: Seq<Val>,
    id: FrameId,
    keyed: bool,
    recordable: bool,
) -> Step {
    let frame = frames::fresh_frame(
        id,
        at.generation,
        program,
        target,
        arguments,
        target.result is Some,
        fiber.top().event_context || target.kind is Event,
    );
    basic::go(
        VmModel {
            path_memo_owner: if recordable {
                Some(fiber.id)
            } else {
                vm.path_memo_owner
            },
            memo_frames: if keyed {
                vm.memo_frames.push(id)
            } else {
                vm.memo_frames
            },
            ..vm
        },
        FiberModel { frames: fiber.frames.push(frame), ..fiber },
    )
}

/// Calls a function whose arguments are bound.
pub open spec fn bound_call(
    vm: VmModel,
    fiber: FiberModel,
    at: At,
    program: ProgramGeneration,
    target: BytecodeFunction,
    arguments: Seq<Val>,
    id: FrameId,
    policy: ExecutionPolicy,
    memo: CallMemo,
) -> Step {
    let recording = vm.path_memo_owner == Some(fiber.id);
    let read = memo::memoized_read(
        vm,
        fiber,
        at.generation,
        target.key,
        arguments,
        memo.selector,
    );
    let keyed = is_keyed(target, recording, policy, memo);
    let recordable = is_recordable(program, target, recording, policy, memo);
    if policy.allow_function_memo && !recording && read.2 is Err {
        basic::fail(read.0, read.1, read.2->Err_0)
    } else if policy.allow_function_memo && !recording && read.2->Ok_0 is Some {
        basic::go(read.0, read.1.with_stack(read.1.top().stack.push(read.2->Ok_0->0)))
    } else if keyed && memo.function is Found {
        repeated(vm, fiber, memo.function->Found_0, Outcome::Continue)
    } else if recordable && memo.path is Replayed {
        repeated(
            vm,
            fiber,
            memo.path->entry,
            Outcome::BulkProgress(memo.path->instructions),
        )
    } else {
        entered(vm, fiber, at, program, target, arguments, id, keyed, recordable)
    }
}

/// Calls a function of the program.
pub open spec fn function_call(
    vm: VmModel,
    fiber: FiberModel,
    at: At,
    program: ProgramGeneration,
    key: SymbolKey,
    arguments: Seq<Val>,
    id: FrameId,
    policy: ExecutionPolicy,
    memo: CallMemo,
) -> Step {
    if fiber.frames.len() >= vm.config.maximum_call_depth {
        basic::fail(vm, fiber, depth_exceeded())
    } else {
        match program.spec_function(key) {
            None => basic::fail(
                vm,
                fiber,
                Failure::of(VmFaultCode::MissingSymbol, "called function is missing"@),
            ),
            Some(target) => if target.kind is Event
                && !program.call_compatibility.allow_event_as_normal {
                basic::fail(
                    vm,
                    fiber,
                    basic::mismatch(
                        "event function "@ + target.name@
                            + " cannot be called as an ordinary function"@,
                    ),
                )
            } else if !frames::arguments_match(target.parameters@, arguments) {
                basic::fail(vm, fiber, fault::mapped(frames::argument_mismatch()))
            } else {
                let bound = memo::bound_statics(vm, program, *target, arguments);
                match bound.1 {
                    Err(e) => basic::fail(bound.0, fiber, fault::mapped(e)),
                    Ok(_) => bound_call(
                        bound.0,
                        fiber,
                        at,
                        program,
                        *target,
                        arguments,
                        id,
                        policy,
                        memo,
                    ),
                }
            },
        }
    }
}

/// A call can be made at a position: its program is loaded and its plans name what is there.
pub open spec fn call_resolves(vm: VmModel, at: At) -> bool {
    terminal::position_resolves(vm, at) && memo::plans_resolve(vm.program(at.generation)->0)
}

impl Vm {
    fn repeat_call(&mut self, fiber: &mut Fiber, entry: &FunctionMemoEntry, outcome: StepOutcome) -> (r:
        Result<StepOutcome, StepError>)
        requires
            old(fiber)@.frames.len() > 0,
        ensures
            (final(self)@, final(fiber)@, fault::outcome(r)) == repeated(
                old(self)@,
                old(fiber)@,
                *entry,
                outcome@,
            ),
    {
        let depth: usize = fiber.frames.len();
        proof {
            extended_ops::lemma_done_keeps_frames(
                self@,
                fiber@,
                extended_ops::writes_of(entry.effects@),
            );
        }
        match memo::write_places(self, fiber, &entry.effects) {
            Ok(_) => {
                basic::push(&mut fiber.top_mut().stack, entry.result.clone());
                Ok(outcome)
            },
            Err(e) => Err(fault::map_vm_error(e)),
        }
    }

    fn call_bound(
        &mut self,
        fiber: &mut Fiber,
        position: &InstructionPosition<'_>,
        program: &ProgramGeneration,
        target: &BytecodeFunction,
        arguments: Vec<VmValue>,
        id: FrameId,
        policy: ExecutionPolicy,
        memo: &CallMemo,
    ) -> (r: Result<StepOutcome, StepError>)
        requires
            old(fiber)@.frames.len() > 0,
            call_resolves(old(self)@, position@),
            old(self)@.program(position@.generation) == Some(*program),
        ensures
            (final(self)@, final(fiber)@, fault::outcome(r)) == bound_call(
                old(self)@,
                old(fiber)@,
                position@,
                *program,
                *target,
                value::vals(arguments@),
                id,
                policy,
                *memo,
            ),
    {
        let depth: usize = fiber.frames.len();
        let recording: bool = match self.path_memo_owner {
            Some(owner) => owner == fiber.id,
            None => false,
        };
        if policy.allow_function_memo && !recording {
            proof {
                memo::lemma_memoized_read_keeps_frames(
                    self@,
                    fiber@,
                    position@.generation,
                    target.key,
                    value::vals(arguments@),
                    memo.selector,
                );
            }
            match self.try_memoized_indexed_read(
                fiber,
                position.generation,
                target.key,
                &arguments,
                &memo.selector,
            ) {
                Err(e) => {
                    return Err(e);
                },
                Ok(Some(v)) => {
                    basic::push(&mut fiber.top_mut().stack, v);
                    return Ok(StepOutcome::Continue);
                },
                Ok(None) => {},
            }
        }
        let may_key: bool = policy.allow_function_memo && !recording && (target.code.len() as u64)
            < (policy.remaining_quantum as u64);
        let mut keyed: bool = false;
        if may_key {
            match &memo.function {
                FunctionLookup::NoKey => {},
                FunctionLookup::Missed => {
                    keyed = true;
                },
                FunctionLookup::Found(entry) => {
                    return self.repeat_call(fiber, entry, StepOutcome::Continue);
                },
            }
        }
        let planned: bool = program.memoized_indexed_read_plan(target.key).is_some();
        let mut recordable: bool = false;
        if policy.allow_function_memo && !recording && target.result.is_some() && !planned {
            match &memo.path {
                PathLookup::NoHead => {},
                PathLookup::Missed => {
                    recordable = true;
                },
                PathLookup::Replayed { entry, instructions } => {
                    return self.repeat_call(fiber, entry, StepOutcome::BulkProgress(*instructions));
                },
            }
        }
        let event_context: bool = fiber.top().event_context || target.kind
            == BytecodeFunctionKind::Event;
        if recordable {
            self.path_memo_owner = Some(fiber.id);
        }
        let frame = frames::make_frame(
            id,
            position.generation,
            program,
            target,
            arguments,
            target.result.is_some(),
            event_context,
        );
        if keyed {
            self.active_function_memos.push(id);
        }
        push_frame(fiber, frame);
        Ok(StepOutcome::Continue)
    }

    fn call_function(
        &mut self,
        fiber: &mut Fiber,
        position: &InstructionPosition<'_>,
        program: &ProgramGeneration,
        key: SymbolKey,
        arguments: Vec<VmValue>,
        id: FrameId,
        policy: ExecutionPolicy,
        memo: &CallMemo,
    ) -> (r: Result<StepOutcome, StepError>)
        requires
            old(fiber)@.frames.len() > 0,
            call_resolves(old(self)@, position@),
            old(self)@.program(position@.generation) == Some(*program),
        ensures
            (final(self)@, final(fiber)@, fault::outcome(r)) == function_call(
                old(self)@,
                old(fiber)@,
                position@,
                *program,
                key,
                value::vals(arguments@),
                id,
                policy,
                *memo,
            ),
    {
        if fiber.frames.len() >= self.config.maximum_call_depth {
            return Err(StepError::new(VmFaultCode::ResourceLimit, "maximum call depth exceeded"));
        }
        let target = match program.function(key) {
            Some(f) => f,
            None => {
                return Err(
                    StepError::new(VmFaultCode::MissingSymbol, "called function is missing"),
                );
            },
        };
        if target.kind == BytecodeFunctionKind::Event
            && !program.call_compatibility.allow_event_as_normal {
            let message = text::join3(
                "event function ",
                target.name.as_str(),
                " cannot be called as an ordinary function",
            );
            return Err(StepError::new(VmFaultCode::TypeMismatch, message.as_str()));
        }
        match frames::validate_arguments(target, &arguments) {
            Ok(_) => {},
            Err(e) => {
                return Err(fault::map_vm_error(e));
            },
        }
        self.memory.ensure_function_statics(program, target.key);
        let stored = self.memory.bind_persistent_arguments(target, &arguments);
        assert(self@ =~= memo::bound_statics(
            old(self)@,
            *program,
            *target,
            value::vals(arguments@),
        ).0);
        match stored {
            Ok(_) => {},
            Err(e) => {
                return Err(fault::map_vm_error(e));
            },
        }
        self.call_bound(fiber, position, program, target, arguments, id, policy, memo)
    }
}

/// What the registry of machine services says about one of them.
#[derive(Clone, Copy, PartialEq, Eq, Debug, Structural)]
pub struct NativeFacts {
    pub registered: bool,
    /// The registered service does not break the recording of a path.
    pub path_safe: bool,
    /// A service of this name, unregistered, does not break the recording of a path.
    pub name_safe: bool,
}

/// A machine service that was called and has not answered.
pub struct NativeWork {
    pub service: NativeService,
    pub key: SymbolKey,
    pub import: Rc<RuntimeImport>,
    pub name: String,
    pub arguments: Vec<VmValue>,
}

/// A host service that was called and has not answered.
pub struct HostWork {
    pub import: Rc<RuntimeImport>,
    pub may_suspend: bool,
    pub stable_wait: bool,
    pub arguments: Vec<VmValue>,
    /// The host may answer at once, without a request.
    pub immediate: bool,
}

/// What a call came to.
pub enum CallStep {
    /// The operation is none of this family.
    Other,
    Done(StepOutcome),
    Native(NativeWork),
    Host(HostWork),
}

/// Mathematical content of a [`CallStep`].
pub enum CallModel {
    Other,
    Done(Outcome),
    Native {
        service: NativeService,
        key: SymbolKey,
        import: RuntimeImport,
        name: Seq<char>,
        arguments: Seq<Val>,
    },
    Host {
        import: RuntimeImport,
        may_suspend: bool,
        stable_wait: bool,
        arguments: Seq<Val>,
        immediate: bool,
    },
}

impl View for CallStep {
    type V = CallModel;

    open spec fn view(&self) -> CallModel {
        match self {
            CallStep::Other => CallModel::Other,
            CallStep::Done(o) => CallModel::Done(o@),
            CallStep::Native(w) => CallModel::Native {
                service: w.service,
                key: w.key,
                import: *w.import,
                name: w.name@,
                arguments: value::vals(w.arguments@),
            },
            CallStep::Host(w) => CallModel::Host {
                import: *w.import,
                may_suspend: w.may_suspend,
                stable_wait: w.stable_wait,
                arguments: value::vals(w.arguments@),
                immediate: w.immediate,
            },
        }
    }
}

/// Machine, fiber and what a call came to.
pub type Called = (VmModel, FiberModel, Result<CallModel, Failure>);

/// A step that is a call done.
pub open spec fn done(step: Step) -> Called {
    (
        step.0,
        step.1,
        match step.2 {
            Ok(o) => Ok(CallModel::Done(o)),
            Err(e) => Err(e),
        },
    )
}

/// A call of a service keeps the recording of the path.
pub open spec fn keeps_path(name: Seq<char>, facts: NativeFacts) -> bool {
    if name == "strform"@ || facts.registered {
        facts.path_safe && name != "strform"@
    } else {
        facts.name_safe
    }
}

/// A service that works on the machine alone.
pub open spec fn own_service(
    vm: VmModel,
    fiber: FiberModel,
    service: NativeService,
    name: Seq<char>,
    arguments: Seq<Val>,
) -> (VmModel, FiberModel, Result<Option<Val>, Trouble>) {
    match service {
        NativeService::ArrayCopy => {
            let written = array_ops::array_copy(vm, fiber, arguments);
            let (v, f) = places::after_write(vm, fiber, written);
            (
                v,
                f,
                match written {
                    Ok(_) => Ok(None),
                    Err(e) => Err(e),
                },
            )
        },
        NativeService::ArrayMultiSort => {
            let r = sorting::multi_sort(vm, fiber, arguments);
            (
                r.0,
                r.1,
                match r.2 {
                    Ok(v) => Ok(Some(v)),
                    Err(e) => Err(e),
                },
            )
        },
        NativeService::ArrayMultiSortEx => {
            let r = sorting::multi_sort_ex(vm, fiber, arguments);
            (
                r.0,
                r.1,
                match r.2 {
                    Ok(v) => Ok(Some(v)),
                    Err(e) => Err(e),
                },
            )
        },
        NativeService::CharacterQuery => (
            vm,
            fiber,
            match character_query::character_query(vm, fiber, name, arguments) {
                Ok(v) => Ok(Some(v)),
                Err(e) => Err(e),
            },
        ),
        _ => {
            let r = character_ops::character_mutation(vm, name, arguments);
            (
                r.0,
                fiber,
                match r.1 {
                    Ok(_) => Ok(None),
                    Err(e) => Err(e),
                },
            )
        },
    }
}

pub open spec fn is_own(service: NativeService) -> bool {
    service is ArrayCopy || service is ArrayMultiSort || service is ArrayMultiSortEx
        || service is CharacterQuery || service is CharacterMutation
}

/// Calls a machine service.
pub open spec fn native_call(
    vm: VmModel,
    fiber: FiberModel,
    program: ProgramGeneration,
    key: SymbolKey,
    arguments: Seq<Val>,
    facts: NativeFacts,
) -> Called {
    match lookup::first_index(program.native_imports@, faults::native_key(key)) {
        None => (
            vm,
            fiber,
            Err(Failure::of(VmFaultCode::MissingSymbol, "native import is missing"@)),
        ),
        Some(i) => {
            let import = program.native_imports@[i].import;
            let name = program.native_imports@[i].normalized_name@;
            let service = services::service_named(name);
            let kept = if keeps_path(name, facts) {
                vm
            } else {
                vm.without_path_memo(fiber.id)
            };
            let work = CallModel::Native { service, key, import: *import, name, arguments };
            if service is ExistMethod {
                if import.result != Some(BytecodeType::Integer) || import.parameters@
                    != seq![BytecodeType::String] {
                    (kept, fiber, Err(Failure::invalid("EXISTMETH import signature is invalid"@)))
                } else if arguments.len() != 1 || !(arguments[0] is Text) {
                    (kept, fiber, Err(basic::mismatch("EXISTMETH expects one string"@)))
                } else {
                    (kept.without_path_memo(fiber.id), fiber, Ok(work))
                }
            } else if service is RuntimeForm {
                if import.result != Some(BytecodeType::String) || arguments.len() != 1 {
                    (kept, fiber, Err(Failure::invalid("STRFORM import signature is invalid"@)))
                } else if !(arguments[0] is Text) {
                    (kept, fiber, Err(basic::mismatch("STRFORM expects a string"@)))
                } else {
                    (kept, fiber, Ok(work))
                }
            } else if is_own(service) {
                let r = own_service(kept, fiber, service, name, arguments);
                match r.2 {
                    Err(e) => (r.0, r.1, Err(fault::mapped(e))),
                    Ok(v) => done(
                        services::taken(
                            r.0,
                            r.1,
                            import.result,
                            v,
                            Seq::empty(),
                            VmFaultCode::Native,
                        ),
                    ),
                }
            } else {
                (kept, fiber, Ok(work))
            }
        },
    }
}

/// Calls a host service.
pub open spec fn host_call(
    vm: VmModel,
    fiber: FiberModel,
    program: ProgramGeneration,
    key: SymbolKey,
    arguments: Seq<Val>,
    policy: ExecutionPolicy,
) -> Called {
    match lookup::first_index(program.host_imports@, faults::host_key(key)) {
        None => (
            vm,
            fiber,
            Err(Failure::of(VmFaultCode::MissingSymbol, "host import is missing"@)),
        ),
        Some(i) => {
            let import = program.host_imports@[i];
            (
                vm,
                fiber,
                Ok(
                    CallModel::Host {
                        import: *import.import,
                        may_suspend: import.may_suspend,
                        stable_wait: import.stable_wait,
                        arguments,
                        immediate: policy.allow_immediate_host,
                    },
                ),
            )
        },
    }
}

/// Calls what an import of the running function names.
pub open spec fn import_call(
    vm: VmModel,
    fiber: FiberModel,
    at: At,
    opcode: Opcode,
    policy: ExecutionPolicy,
    memo: CallMemo,
    facts: NativeFacts,
) -> Called {
    match operand::u32_at(at.payload, 0) {
        Err(e) => (vm, fiber, Err(e)),
        Ok(index) => match operand::u16_at(at.payload, 4) {
            Err(e) => (vm, fiber, Err(e)),
            Ok(count) => {
                let numbered = if opcode is Call {
                    VmModel { next_frame: vm.next_frame.wrapping_add(1), ..vm }
                } else {
                    vm
                };
                let program = vm.program(at.generation)->0;
                let imports = program.spec_function(at.function)->0.imports@;
                if index as int >= imports.len() {
                    (
                        numbered,
                        fiber,
                        Err(Failure::of(VmFaultCode::MissingSymbol, "call import is missing"@)),
                    )
                } else {
                    let import = imports[index as int];
                    let (stack, arguments) = operand::popped_arguments(
                        fiber.top().stack,
                        count as nat,
                    );
                    let popped = fiber.with_stack(stack);
                    match arguments {
                        Err(e) => (numbered, popped, Err(e)),
                        Ok(arguments) => match (opcode, import.kind) {
                            (Opcode::Call, ImportKind::Function) => done(
                                function_call(
                                    numbered,
                                    popped,
                                    at,
                                    program,
                                    import.key,
                                    arguments,
                                    FrameId(vm.next_frame),
                                    policy,
                                    memo,
                                ),
                            ),
                            (Opcode::CallNative, ImportKind::Native) => native_call(
                                numbered,
                                popped,
                                program,
                                import.key,
                                arguments,
                                facts,
                            ),
                            (Opcode::CallHost, ImportKind::Host) => host_call(
                                numbered,
                                popped,
                                program,
                                import.key,
                                arguments,
                                policy,
                            ),
                            _ => (
                                numbered,
                                popped,
                                Err(Failure::invalid("call opcode and import kind differ"@)),
                            ),
                        },
                    }
                }
            },
        },
    }
}

/// One operation of this family.
pub open spec fn called(
    vm: VmModel,
    fiber: FiberModel,
    at: At,
    opcode: Opcode,
    policy: ExecutionPolicy,
    memo: CallMemo,
    facts: NativeFacts,
) -> Called {
    if fiber.frames.len() == 0 {
        (vm, fiber, Err(Failure::invalid("missing frame"@)))
    } else {
        match opcode {
            Opcode::ResolveFunction => done(resolve_step(vm, fiber, at)),
            Opcode::InvokeDynamic => done(invoke_dynamic_step(vm, fiber, at)),
            Opcode::Call | Opcode::CallNative | Opcode::CallHost => import_call(
                vm,
                fiber,
                at,
                opcode,
                policy,
                memo,
                facts,
            ),
            _ => (vm, fiber, Ok(CallModel::Other)),
        }
    }
}

fn find_native<'a>(program: &'a ProgramGeneration, key: SymbolKey) -> (r: Option<&'a NativeImport>)
    ensures
        match r {
            Some(n) => lookup::first_index(program.native_imports@, faults::native_key(key))
                matches Some(i) && *n == program.native_imports@[i],
            None => lookup::first_index(program.native_imports@, faults::native_key(key)) is None,
        },
{
    let mut i: usize = 0;
    while i < program.native_imports.len()
        invariant
            i <= program.native_imports.len(),
            forall|j: int|
                0 <= j < i ==> !faults::native_key(key)(#[trigger] program.native_imports@[j]),
        decreases program.native_imports.len() - i,
    {
        if program.native_imports[i].import.key == key {
            proof {
                lookup::lemma_first_found(
                    program.native_imports@,
                    faults::native_key(key),
                    i as int,
                );
            }
            return Some(&program.native_imports[i]);
        }
        i = i + 1;
    }
    proof {
        lookup::lemma_first_none(program.native_imports@, faults::native_key(key));
    }
    None
}

fn find_host<'a>(program: &'a ProgramGeneration, key: SymbolKey) -> (r: Option<&'a HostImport>)
    ensures
        match r {
            Some(n) => lookup::first_index(program.host_imports@, faults::host_key(key)) matches Some(
                i,
            ) && *n == program.host_imports@[i],
            None => lookup::first_index(program.host_imports@, faults::host_key(key)) is None,
        },
{
    let mut i: usize = 0;
    while i < program.host_imports.len()
        invariant
            i <= program.host_imports.len(),
            forall|j: int|
                0 <= j < i ==> !faults::host_key(key)(#[trigger] program.host_imports@[j]),
        decreases program.host_imports.len() - i,
    {
        if program.host_imports[i].import.key == key {
            proof {
                lookup::lemma_first_found(program.host_imports@, faults::host_key(key), i as int);
            }
            return Some(&program.host_imports[i]);
        }
        i = i + 1;
    }
    proof {
        lookup::lemma_first_none(program.host_imports@, faults::host_key(key));
    }
    None
}

fn takes_one_string(import: &RuntimeImport) -> (r: bool)
    ensures
        r == (import.parameters@ == seq![BytecodeType::String]),
{
    let r = import.parameters.len() == 1 && import.parameters[0] == BytecodeType::String;
    proof {
        if r {
            assert(import.parameters@ =~= seq![BytecodeType::String]);
        }
    }
    r
}

fn is_one_string(arguments: &Vec<VmValue>) -> (r: bool)
    ensures
        r == (value::vals(arguments@).len() == 1 && value::vals(arguments@)[0] is Text),
{
    if arguments.len() != 1 {
        return false;
    }
    match &arguments[0] {
        VmValue::String(_) => true,
        _ => false,
    }
}

fn done_step(r: Result<StepOutcome, StepError>) -> (s: Result<CallStep, StepError>)
    ensures
        fault::outcome(s) == match fault::outcome(r) {
            Ok(o) => Ok::<CallModel, Failure>(CallModel::Done(o)),
            Err(e) => Err(e),
        },
{
    match r {
        Ok(o) => Ok(CallStep::Done(o)),
        Err(e) => Err(e),
    }
}

fn some_value(r: Result<VmValue, VmError>) -> (s: Result<Option<VmValue>, VmError>)
    ensures
        match r {
            Ok(v) => s == Ok::<Option<VmValue>, VmError>(Some(v)),
            Err(e) => s == Err::<Option<VmValue>, VmError>(e),
        },
{
    match r {
        Ok(v) => Ok(Some(v)),
        Err(e) => Err(e),
    }
}

fn no_value(r: Result<(), VmError>) -> (s: Result<Option<VmValue>, VmError>)
    ensures
        match r {
            Ok(_) => s == Ok::<Option<VmValue>, VmError>(None),
            Err(e) => s == Err::<Option<VmValue>, VmError>(e),
        },
{
    match r {
        Ok(_) => Ok(None),
        Err(e) => Err(e),
    }
}

pub open spec fn value_result(r: Result<Option<VmValue>, VmError>) -> Result<Option<Val>, Trouble> {
    match r {
        Ok(v) => Ok(state::optional_val(v)),
        Err(e) => Err(e@),
    }
}

impl Vm {
    fn run_own_service(
        &mut self,
        fiber: &mut Fiber,
        service: NativeService,
        name: &str,
        arguments: &Vec<VmValue>,
    ) -> (r: Result<Option<VmValue>, VmError>)
        requires
            old(fiber)@.frames.len() > 0,
        ensures
            (final(self)@, final(fiber)@, value_result(r)) == own_service(
                old(self)@,
                old(fiber)@,
                service,
                name@,
                value::vals(arguments@),
            ),
    {
        match service {
            NativeService::ArrayCopy => no_value(
                array_ops::execute_array_copy(self, fiber, arguments),
            ),
            NativeService::ArrayMultiSort => some_value(
                sorting::execute_array_multi_sort(self, fiber, arguments),
            ),
            NativeService::ArrayMultiSortEx => some_value(
                sorting::execute_array_multi_sort_ex(self, fiber, arguments),
            ),
            NativeService::CharacterQuery => some_value(
                character_query::execute_character_query(&*self, &*fiber, name, arguments),
            ),
            _ => no_value(character_ops::execute_character_mutation(self, name, arguments)),
        }
    }

    fn call_native(
        &mut self,
        fiber: &mut Fiber,
        program: &ProgramGeneration,
        key: SymbolKey,
        arguments: Vec<VmValue>,
        facts: NativeFacts,
    ) -> (r: Result<CallStep, StepError>)
        requires
            old(fiber)@.frames.len() > 0,
        ensures
            (final(self)@, final(fiber)@, fault::outcome(r)) == native_call(
                old(self)@,
                old(fiber)@,
                *program,
                key,
                value::vals(arguments@),
                facts,
            ),
    {
        let depth: usize = fiber.frames.len();
        let target = match find_native(program, key) {
            Some(n) => n,
            None => {
                return Err(StepError::new(VmFaultCode::MissingSymbol, "native import is missing"));
            },
        };
        let name = target.normalized_name.as_str();
        let service = services::native_service(name);
        let form: bool = text::same_text(name, "strform");
        let keeps: bool = if form || facts.registered {
            facts.path_safe && !form
        } else {
            facts.name_safe
        };
        if !keeps {
            self.invalidate_path_memo(fiber.id);
        }
        let ghost kept = self@;
        let import = target.import.clone();
        match service {
            NativeService::ExistMethod => {
                if import.result != Some(BytecodeType::Integer) || !takes_one_string(&*import) {
                    return Err(
                        StepError::new(
                            VmFaultCode::InvalidInstruction,
                            "EXISTMETH import signature is invalid",
                        ),
                    );
                }
                if !is_one_string(&arguments) {
                    return Err(
                        StepError::new(
                            VmFaultCode::TypeMismatch,
                            "EXISTMETH expects one string",
                        ),
                    );
                }
                self.invalidate_path_memo(fiber.id);
                Ok(
                    CallStep::Native(
                        NativeWork {
                            service,
                            key,
                            import,
                            name: target.normalized_name.clone(),
                            arguments,
                        },
                    ),
                )
            },
            NativeService::RuntimeForm => {
                if import.result != Some(BytecodeType::String) || arguments.len() != 1 {
                    return Err(
                        StepError::new(
                            VmFaultCode::InvalidInstruction,
                            "STRFORM import signature is invalid",
                        ),
                    );
                }
                if !is_one_string(&arguments) {
                    return Err(
                        StepError::new(VmFaultCode::TypeMismatch, "STRFORM expects a string"),
                    );
                }
                Ok(
                    CallStep::Native(
                        NativeWork {
                            service,
                            key,
                            import,
                            name: target.normalized_name.clone(),
                            arguments,
                        },
                    ),
                )
            },
            NativeService::ArrayCopy
            | NativeService::ArrayMultiSort
            | NativeService::ArrayMultiSortEx
            | NativeService::CharacterQuery
            | NativeService::CharacterMutation => {
                proof {
                    lemma_own_service_keeps_frames(
                        kept,
                        fiber@,
                        service,
                        name@,
                        value::vals(arguments@),
                    );
                }
                match self.run_own_service(fiber, service, name, &arguments) {
                    Err(e) => Err(fault::map_vm_error(e)),
                    Ok(v) => {
                        let ready = NativeReady { value: v, writes: Vec::new() };
                        assert(extended_ops::writes_of(ready.writes@) =~= Seq::<
                            (value::Place, Val),
                        >::empty());
                        done_step(
                            self.take_reply(fiber, import.result, ready, VmFaultCode::Native),
                        )
                    },
                }
            },
            _ => Ok(
                CallStep::Native(
                    NativeWork {
                        service,
                        key,
                        import,
                        name: target.normalized_name.clone(),
                        arguments,
                    },
                ),
            ),
        }
    }
}

proof fn lemma_array_write_keeps_frames(
    vm: VmModel,
    fiber: FiberModel,
    place: value::Place,
    values: Seq<Val>,
)
    requires
        fiber.frames.len() <= usize::MAX,
    ensures
        arrays::array_written(vm, fiber, place, values) matches Ok((v, f)) ==> f.frames.len()
            == fiber.frames.len(),
{
    if let Ok(address) = places::place_address(vm, fiber, place) {
        if let Some(id) = address.frame {
            lookup::lemma_first_index(fiber.frames, state::frame_is(id));
        }
    }
}

proof fn lemma_candidates_keep_frames(
    vm: VmModel,
    fiber: FiberModel,
    candidates: Seq<sorting::Candidate>,
)
    requires
        fiber.frames.len() <= usize::MAX,
    ensures
        sorting::candidates_done(vm, fiber, candidates).1.frames.len() == fiber.frames.len(),
    decreases candidates.len(),
{
    if candidates.len() > 0 {
        lemma_candidates_keep_frames(vm, fiber, candidates.drop_last());
        let before = sorting::candidates_done(vm, fiber, candidates.drop_last());
        lemma_array_write_keeps_frames(
            before.0,
            before.1,
            candidates.last().0,
            candidates.last().1,
        );
    }
}

proof fn lemma_own_service_keeps_frames(
    vm: VmModel,
    fiber: FiberModel,
    service: NativeService,
    name: Seq<char>,
    arguments: Seq<Val>,
)
    requires
        fiber.frames.len() <= usize::MAX,
    ensures
        own_service(vm, fiber, service, name, arguments).1.frames.len() == fiber.frames.len(),
{
    assert forall|place: value::Place, values: Seq<Val>|
        (#[trigger] arrays::array_written(vm, fiber, place, values)) is Ok implies arrays::array_written(
        vm,
        fiber,
        place,
        values,
    )->Ok_0.1.frames.len() == fiber.frames.len() by {
        lemma_array_write_keeps_frames(vm, fiber, place, values);
    }
    assert forall|candidates: Seq<sorting::Candidate>|
        (#[trigger] sorting::candidates_done(vm, fiber, candidates)).1.frames.len()
            == fiber.frames.len() by {
        lemma_candidates_keep_frames(vm, fiber, candidates);
    }
}

impl Vm {
    fn call_import(
        &mut self,
        fiber: &mut Fiber,
        position: &InstructionPosition<'_>,
        opcode: Opcode,
        policy: ExecutionPolicy,
        memo: &CallMemo,
        facts: NativeFacts,
    ) -> (r: Result<CallStep, StepError>)
        requires
            opcode is Call || opcode is CallNative || opcode is CallHost,
            old(fiber)@.frames.len() > 0,
            call_resolves(old(self)@, position@),
        ensures
            (final(self)@, final(fiber)@, fault::outcome(r)) == import_call(
                old(self)@,
                old(fiber)@,
                position@,
                opcode,
                policy,
                *memo,
                facts,
            ),
    {
        let index: u32 = match operand::read_u32(position.payload, 0) {
            Ok(n) => n,
            Err(e) => {
                return Err(e);
            },
        };
        let count: u16 = match operand::read_u16(position.payload, 4) {
            Ok(n) => n,
            Err(e) => {
                return Err(e);
            },
        };
        let program = match self.program(position.generation) {
            Some(p) => p,
            None => {
                return Err(StepError::new(VmFaultCode::MissingSymbol, ""));
            },
        };
        let id: FrameId = if opcode == Opcode::Call {
            self.allocate_frame_id()
        } else {
            FrameId(0)
        };
        let function = match program.function(position.function) {
            Some(f) => f,
            None => {
                return Err(StepError::new(VmFaultCode::MissingSymbol, ""));
            },
        };
        if index as usize >= function.imports.len() {
            return Err(StepError::new(VmFaultCode::MissingSymbol, "call import is missing"));
        }
        let import = function.imports[index as usize];
        let arguments = match operand::pop_arguments(&mut fiber.top_mut().stack, count as usize) {
            Ok(v) => v,
            Err(e) => {
                return Err(e);
            },
        };
        match (opcode, import.kind) {
            (Opcode::Call, ImportKind::Function) => done_step(
                self.call_function(
                    fiber,
                    position,
                    &*program,
                    import.key,
                    arguments,
                    id,
                    policy,
                    memo,
                ),
            ),
            (Opcode::CallNative, ImportKind::Native) => self.call_native(
                fiber,
                &*program,
                import.key,
                arguments,
                facts,
            ),
            (Opcode::CallHost, ImportKind::Host) => match find_host(&*program, import.key) {
                None => Err(StepError::new(VmFaultCode::MissingSymbol, "host import is missing")),
                Some(target) => Ok(
                    CallStep::Host(
                        HostWork {
                            import: target.import.clone(),
                            may_suspend: target.may_suspend,
                            stable_wait: target.stable_wait,
                            arguments,
                            immediate: policy.allow_immediate_host,
                        },
                    ),
                ),
            },
            _ => Err(
                StepError::new(
                    VmFaultCode::InvalidInstruction,
                    "call opcode and import kind differ",
                ),
            ),
        }
    }

    /// Executes one operation of this family on the running frame. `memo` is what the caches hold for
    /// the call, `facts` what the registry of machine services says. A service that the machine does
    /// not hold itself is handed out, and its answer is taken by [`Vm::finish_native_call`],
    /// [`Vm::finish_immediate_host_call`] or [`Vm::finish_host_call`].
    pub fn dispatch_calls(
        &mut self,
        fiber: &mut Fiber,
        position: &InstructionPosition<'_>,
        opcode: Opcode,
        policy: ExecutionPolicy,
        memo: &CallMemo,
        facts: NativeFacts,
    ) -> (r: Result<CallStep, StepError>)
        requires
            call_resolves(old(self)@, position@),
        ensures
            (final(self)@, final(fiber)@, fault::outcome(r)) == called(
                old(self)@,
                old(fiber)@,
                position@,
                opcode,
                policy,
                *memo,
                facts,
            ),
    {
        if fiber.frames.len() == 0 {
            return Err(StepError::new(VmFaultCode::InvalidInstruction, "missing frame"));
        }
        match opcode {
            Opcode::ResolveFunction => done_step(self.step_resolve(fiber, position)),
            Opcode::InvokeDynamic => done_step(self.step_invoke_dynamic(fiber, position)),
            Opcode::Call | Opcode::CallNative | Opcode::CallHost => self.call_import(
                fiber,
                position,
                opcode,
                policy,
                memo,
                facts,
            ),
            _ => Ok(CallStep::Other),
        }
    }
}

/// What became of the reply of a machine service.
pub enum NativeEnd {
    Done,
    /// The reply was refused; the state of the service is to be put back.
    RollBack(StepError),
}

/// Machine, fiber and end of a machine service that answered.
pub open spec fn native_end(
    vm: VmModel,
    fiber: FiberModel,
    result: Option<BytecodeType>,
    value: Option<Val>,
    writes: Seq<(value::Place, Val)>,
    checkpoint: bool,
) -> (VmModel, FiberModel, Result<Option<Failure>, Failure>) {
    let step = services::taken(vm, fiber, result, value, writes, VmFaultCode::Native);
    (
        step.0,
        step.1,
        match step.2 {
            Ok(_) => Ok(None),
            Err(e) => if checkpoint {
                Ok(Some(e))
            } else {
                Err(e)
            },
        },
    )
}

pub open spec fn end_result(r: Result<NativeEnd, StepError>) -> Result<Option<Failure>, Failure> {
    match r {
        Ok(NativeEnd::Done) => Ok(None),
        Ok(NativeEnd::RollBack(e)) => Ok(Some(e@)),
        Err(e) => Err(e@),
    }
}

/// The failure after a state was put back, or was not.
pub open spec fn after_rollback(failure: Failure, rollback: Result<(), Seq<char>>) -> Failure {
    match rollback {
        Ok(_) => failure,
        Err(m) => services::rollback_failure(m),
    }
}

/// The failure after the state of a service was put back, or was not.
pub fn finish_rollback(error: StepError, rollback: Result<(), String>) -> (r: StepError)
    ensures
        r@ == after_rollback(error@, services::text_result(rollback)),
{
    match rollback {
        Ok(_) => error,
        Err(m) => services::failed_rollback(m.as_str()),
    }
}

/// What the host said to a request.
pub enum HostReply {
    Ready(NativeReady),
    Pending { stability: HostWaitStability, rebind_payload: Vec<u8> },
    Error(StepError),
    Deferred,
}

/// Mathematical content of a [`HostReply`].
pub enum ReplyModel {
    Ready { value: Option<Val>, writes: Seq<(value::Place, Val)> },
    Pending { stability: HostWaitStability, rebind_payload: Seq<u8> },
    Error(Failure),
    Deferred,
}

impl View for HostReply {
    type V = ReplyModel;

    open spec fn view(&self) -> ReplyModel {
        match self {
            HostReply::Ready(ready) => ReplyModel::Ready {
                value: state::optional_val(ready.value),
                writes: extended_ops::writes_of(ready.writes@),
            },
            HostReply::Pending { stability, rebind_payload } => ReplyModel::Pending {
                stability: *stability,
                rebind_payload: rebind_payload@,
            },
            HostReply::Error(e) => ReplyModel::Error(e@),
            HostReply::Deferred => ReplyModel::Deferred,
        }
    }
}

/// A request to the host.
pub struct HostRequest {
    pub id: u64,
    pub import: Rc<RuntimeImport>,
    pub may_suspend: bool,
    pub stable_wait: bool,
    pub arguments: Vec<VmValue>,
    pub origin: Rc<VmExecutionOrigin>,
}

/// A fiber that waits for a request.
pub open spec fn waiting(
    fiber: FiberModel,
    id: u64,
    import: RuntimeImport,
    origin: OriginModel,
    stability: HostWaitStability,
    rebind_payload: Seq<u8>,
) -> FiberModel {
    FiberModel {
        state: StateModel::WaitingHost(
            WaitModel {
                request: id,
                import,
                result: import.result,
                stability,
                rebind_payload,
                origin,
            },
        ),
        ..fiber
    }
}

/// A step that takes what the host said to a request.
pub open spec fn host_end(
    vm: VmModel,
    fiber: FiberModel,
    id: u64,
    import: RuntimeImport,
    may_suspend: bool,
    stable_wait: bool,
    origin: OriginModel,
    reply: ReplyModel,
) -> Step {
    match reply {
        ReplyModel::Ready { value, writes } => services::taken(
            vm,
            fiber,
            import.result,
            value,
            writes,
            VmFaultCode::Host,
        ),
        ReplyModel::Pending { stability, rebind_payload } => if !may_suspend {
            basic::fail(
                vm,
                fiber,
                Failure::of(VmFaultCode::Host, "non-suspending host import returned pending"@),
            )
        } else if stability is StableInput && !stable_wait {
            basic::fail(
                vm,
                fiber,
                Failure::of(
                    VmFaultCode::Host,
                    "host import reported a wait above its snapshot capability"@,
                ),
            )
        } else {
            (
                vm,
                waiting(fiber, id, import, origin, stability, rebind_payload),
                Ok(Outcome::Blocked),
            )
        },
        ReplyModel::Error(e) => basic::fail(vm, fiber, e),
        ReplyModel::Deferred => (
            vm,
            waiting(fiber, id, import, origin, HostWaitStability::Transient, Seq::empty()),
            Ok(Outcome::Blocked),
        ),
    }
}

/// One more, but no more than the range allows.
pub open spec fn counted(calls: u32) -> u32 {
    if calls == u32::MAX {
        calls
    } else {
        (calls + 1) as u32
    }
}

pub(crate) fn count_call(calls: &mut u32)
    ensures
        *final(calls) == counted(*old(calls)),
{
    if *calls != u32::MAX {
        *calls = *calls + 1;
    }
}

impl Vm {
    /// Takes the reply of a machine service. `checkpoint` tells whether the service has a state to go
    /// back to.
    pub fn finish_native_call(
        &mut self,
        fiber: &mut Fiber,
        result: Option<BytecodeType>,
        ready: NativeReady,
        checkpoint: bool,
    ) -> (r: Result<NativeEnd, StepError>)
        requires
            old(fiber)@.frames.len() > 0,
        ensures
            (final(self)@, final(fiber)@, end_result(r)) == native_end(
                old(self)@,
                old(fiber)@,
                result,
                state::optional_val(ready.value),
                extended_ops::writes_of(ready.writes@),
                checkpoint,
            ),
    {
        match self.take_reply(fiber, result, ready, VmFaultCode::Native) {
            Ok(_) => Ok(NativeEnd::Done),
            Err(e) => {
                if checkpoint {
                    Ok(NativeEnd::RollBack(e))
                } else {
                    Err(e)
                }
            },
        }
    }

    /// Takes the reply that the host gave at once. `path_safe` tells whether the service keeps the
    /// recording of the path.
    pub fn finish_immediate_host_call(
        &mut self,
        fiber: &mut Fiber,
        import: &RuntimeImport,
        ready: NativeReady,
        path_safe: bool,
        host_calls: &mut u32,
    ) -> (r: Result<StepOutcome, StepError>)
        requires
            old(fiber)@.frames.len() > 0,
        ensures
            *final(host_calls) == counted(*old(host_calls)),
            (final(self)@, final(fiber)@, fault::outcome(r)) == services::taken(
                if path_safe {
                    old(self)@
                } else {
                    old(self)@.without_path_memo(old(fiber)@.id)
                },
                old(fiber)@,
                import.result,
                state::optional_val(ready.value),
                extended_ops::writes_of(ready.writes@),
                VmFaultCode::Host,
            ),
    {
        if !path_safe {
            self.invalidate_path_memo(fiber.id);
        }
        count_call(host_calls);
        self.take_reply(fiber, import.result, ready, VmFaultCode::Host)
    }

    /// Makes a request of a call that the host did not answer at once. The recording of the path is
    /// given up.
    pub fn request_host_call(
        &mut self,
        fiber: &Fiber,
        position: &InstructionPosition<'_>,
        work: HostWork,
        host_calls: &mut u32,
    ) -> (r: HostRequest)
        ensures
            *final(host_calls) == counted(*old(host_calls)),
            ({
                let kept = old(self)@.without_path_memo(fiber@.id);
                final(self)@ == (VmModel {
                    next_request: kept.next_request.wrapping_add(1),
                    ..kept
                })
            }),
            r.id == old(self)@.next_request,
            r.import == work.import,
            r.may_suspend == work.may_suspend,
            r.stable_wait == work.stable_wait,
            r.arguments == work.arguments,
            r.origin@ == faults::origin_of(old(self)@, position@, work.import.name@),
    {
        self.invalidate_path_memo(fiber.id);
        let id: u64 = self.allocate_request_id();
        count_call(host_calls);
        let origin = self.execution_origin(position, work.import.name.as_str());
        HostRequest {
            id,
            import: work.import,
            may_suspend: work.may_suspend,
            stable_wait: work.stable_wait,
            arguments: work.arguments,
            origin: Rc::new(origin),
        }
    }

    /// Takes what the host said to a request.
    pub fn finish_host_call(&mut self, fiber: &mut Fiber, request: HostRequest, reply: HostReply) -> (r:
        Result<StepOutcome, StepError>)
        requires
            old(fiber)@.frames.len() > 0,
        ensures
            (final(self)@, final(fiber)@, fault::outcome(r)) == host_end(
                old(self)@,
                old(fiber)@,
                request.id,
                *request.import,
                request.may_suspend,
                request.stable_wait,
                request.origin@,
                reply@,
            ),
    {
        match reply {
            HostReply::Ready(ready) => self.take_reply(
                fiber,
                request.import.result,
                ready,
                VmFaultCode::Host,
            ),
            HostReply::Pending { stability, rebind_payload } => {
                if !request.may_suspend {
                    return Err(
                        StepError::new(
                            VmFaultCode::Host,
                            "non-suspending host import returned pending",
                        ),
                    );
                }
                if stability == HostWaitStability::StableInput && !request.stable_wait {
                    return Err(
                        StepError::new(
                            VmFaultCode::Host,
                            "host import reported a wait above its snapshot capability",
                        ),
                    );
                }
                let result = request.import.result;
                fiber.state = FiberState::WaitingHost(
                    WaitingHost {
                        request: request.id,
                        import: request.import,
                        result,
                        stability,
                        rebind_payload,
                        origin: request.origin,
                    },
                );
                Ok(StepOutcome::Blocked)
            },
            HostReply::Error(e) => Err(e),
            HostReply::Deferred => {
                let result = request.import.result;
                let rebind_payload: Vec<u8> = Vec::new();
                assert(rebind_payload@ =~= Seq::<u8>::empty());
                fiber.state = FiberState::WaitingHost(
                    WaitingHost {
                        request: request.id,
                        import: request.import,
                        result,
                        stability: HostWaitStability::Transient,
                        rebind_payload,
                        origin: request.origin,
                    },
                );
                Ok(StepOutcome::Blocked)
            },
        }
    }
}

/// A call never goes deeper than the limit.
pub proof fn law_call_depth_is_kept(
    vm: VmModel,
    fiber: FiberModel,
    at: At,
    program: ProgramGeneration,
    key: SymbolKey,
    arguments: Seq<Val>,
    id: FrameId,
    policy: ExecutionPolicy,
    memo: CallMemo,
)
    requires
        0 < fiber.frames.len() <= vm.config.maximum_call_depth,
    ensures
        function_call(vm, fiber, at, program, key, arguments, id, policy, memo).1.frames.len()
            <= vm.config.maximum_call_depth,
{
    if let Some(target) = program.spec_function(key) {
        let bound = memo::bound_statics(vm, program, *target, arguments).0;
        memo::lemma_memoized_read_keeps_frames(
            bound,
            fiber,
            at.generation,
            target.key,
            arguments,
            memo.selector,
        );
        if memo.function is Found {
            extended_ops::lemma_done_keeps_frames(
                bound,
                fiber,
                extended_ops::writes_of(memo.function->Found_0.effects@),
            );
        }
        if memo.path is Replayed {
            extended_ops::lemma_done_keeps_frames(
                bound,
                fiber,
                extended_ops::writes_of(memo.path->entry.effects@),
            );
        }
    }
}

/// A fiber waits for the host only where the service may suspend or the answer was put off, and in a
/// kept way only where the service says so.
pub proof fn law_waits_keep_their_capability(
    vm: VmModel,
    fiber: FiberModel,
    id: u64,
    import: RuntimeImport,
    may_suspend: bool,
    stable_wait: bool,
    origin: OriginModel,
    reply: ReplyModel,
)
    requires
        host_end(vm, fiber, id, import, may_suspend, stable_wait, origin, reply).2 == Ok::<
            Outcome,
            Failure,
        >(Outcome::Blocked),
    ensures
        host_end(
            vm,
            fiber,
            id,
            import,
            may_suspend,
            stable_wait,
            origin,
            reply,
        ).1.state matches StateModel::WaitingHost(w) && w.request == id && (may_suspend
            || reply is Deferred) && (w.stability is StableInput ==> stable_wait),
{
}

} // verus!
