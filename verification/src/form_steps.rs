//! One step of an evaluation.

use vstd::prelude::*;
use std::rc::Rc;
use crate::arithmetic;
use crate::ast::{
    self, Alignment, BinaryOp, Expr, FormPart, FormTree, FormattedString, PartTree, Tree,
};
use crate::existvar::invalid;
use crate::fault::{self, Failure, StepError};
use crate::form_binding::NativeProviders;
use crate::form_call_text;
use crate::form_calls::{self, AskedMatch, MatchAsk};
use crate::form_checkpoints;
use crate::form_hosts::{self, Asked, HostAdvance};
use crate::form_methods;
use crate::form_plans;
use crate::form_pump::{self, AskedPredicate, PredicateAsk};
use crate::form_queries::{self, AskedInput, InputRequest};
use crate::form_resources;
use crate::form_services::{self, AskedPad, PadAsk};
use crate::form_support;
use crate::form_symbols;
use crate::forms::{
    self, BitCall, BoundService, Form, FormBitCall, FormMatch, InputOperation, MapCall, MapWorkCall,
    MatchCall, MatchStage, MethodResult, RuntimeCallSite, RuntimeFormContinuation, RuntimeFormRoot,
    RuntimeFormTask, RuntimeUserCall, Task, UserCall, MAX_RUNTIME_FORM_NESTING,
};
use crate::program::{BitCallSpec, BoundRuntimeNative, CallTextSpec};
use crate::state::{Fiber, FiberModel, FrameModel, Vm, VmModel};
use crate::value::{self, Place, PlaceDescriptor, SymbolKey, Val, VmValue};

verus! {

/// What an evaluation asks for before it can go on.
pub enum FormRequest {
    /// The started user call has come back.
    UserWait,
    Input(InputRequest),
    Host(HostAdvance),
    BitCapture { spec: BitCallSpec, site: RuntimeCallSite, source: Vec<Option<Rc<Expr>>> },
    BitFinish(FormBitCall),
    Predicate(PredicateAsk),
    ParseForm(String),
    ParseCallText { text: String, call: CallTextSpec },
    ParseProbe { id: u64, probe: String },
    MapCapture {
        bound: Rc<BoundRuntimeNative>,
        map_site: RuntimeCallSite,
        arguments: Vec<Option<Rc<Expr>>>,
    },
    MapValues { map: MapWorkCall, output: Option<Rc<Expr>> },
    MapFinish(MapWorkCall),
    Match(MatchAsk),
    MatchStage(MatchStage, FormMatch),
    Mutate { place: PlaceDescriptor, mode: u8 },
    Native { service: Rc<BoundRuntimeNative>, operands: Vec<VmValue>, depth: usize },
    Pad(PadAsk),
    Method(RuntimeUserCall),
    CaptureArgument(RuntimeUserCall),
    ExistsMethod(String),
}

/// Mathematical content of a [`FormRequest`].
#[verifier::ext_equal]
pub enum Ask {
    UserWait,
    Input(AskedInput),
    Host(Asked),
    BitCapture(BitCallSpec, RuntimeCallSite, Seq<Option<Tree>>),
    BitFinish(BitCall),
    Predicate(AskedPredicate),
    ParseForm(Seq<char>),
    ParseCallText(Seq<char>, CallTextSpec),
    ParseProbe(u64, Seq<char>),
    MapCapture(BoundService, RuntimeCallSite, Seq<Option<Tree>>),
    MapValues(MapCall, Option<Tree>),
    MapFinish(MapCall),
    Match(AskedMatch),
    MatchStage(MatchStage, MatchCall),
    Mutate(Place, u8),
    Native(BoundService, Seq<Val>, nat),
    Pad(AskedPad),
    Method(UserCall),
    CaptureArgument(UserCall),
    ExistsMethod(Seq<char>),
}

impl View for FormRequest {
    type V = Ask;

    open spec fn view(&self) -> Ask {
        match self {
            FormRequest::UserWait => Ask::UserWait,
            FormRequest::Input(i) => Ask::Input(i@),
            FormRequest::Host(h) => Ask::Host(h@),
            FormRequest::BitCapture { spec, site, source } => Ask::BitCapture(
                *spec,
                *site,
                ast::argument_trees(source@),
            ),
            FormRequest::BitFinish(c) => Ask::BitFinish(c@),
            FormRequest::Predicate(p) => Ask::Predicate(p@),
            FormRequest::ParseForm(s) => Ask::ParseForm(s@),
            FormRequest::ParseCallText { text, call } => Ask::ParseCallText(text@, *call),
            FormRequest::ParseProbe { id, probe } => Ask::ParseProbe(*id, probe@),
            FormRequest::MapCapture { bound, map_site, arguments } => Ask::MapCapture(
                bound@,
                *map_site,
                ast::argument_trees(arguments@),
            ),
            FormRequest::MapValues { map, output } => Ask::MapValues(
                map@,
                ast::argument_tree(*output),
            ),
            FormRequest::MapFinish(c) => Ask::MapFinish(c@),
            FormRequest::Match(m) => Ask::Match(m@),
            FormRequest::MatchStage(stage, c) => Ask::MatchStage(*stage, c@),
            FormRequest::Mutate { place, mode } => Ask::Mutate(place@, *mode),
            FormRequest::Native { service, operands, depth } => Ask::Native(
                service@,
                value::vals(operands@),
                *depth as nat,
            ),
            FormRequest::Pad(p) => Ask::Pad(p@),
            FormRequest::Method(c) => Ask::Method(c@),
            FormRequest::CaptureArgument(c) => Ask::CaptureArgument(c@),
            FormRequest::ExistsMethod(s) => Ask::ExistsMethod(s@),
        }
    }
}

/// What a step of an evaluation comes to.
pub enum RuntimeFormStep {
    /// There is more to do.
    Pending,
    /// The host is waited for.
    Blocked,
    Complete(VmValue),
    CompleteCall,
    Request(FormRequest),
}

/// Mathematical content of a [`RuntimeFormStep`].
#[verifier::ext_equal]
pub enum Stepped {
    Pending,
    Blocked,
    Complete(Val),
    CompleteCall,
    Request(Ask),
}

impl View for RuntimeFormStep {
    type V = Stepped;

    open spec fn view(&self) -> Stepped {
        match self {
            RuntimeFormStep::Pending => Stepped::Pending,
            RuntimeFormStep::Blocked => Stepped::Blocked,
            RuntimeFormStep::Complete(v) => Stepped::Complete(v@),
            RuntimeFormStep::CompleteCall => Stepped::CompleteCall,
            RuntimeFormStep::Request(r) => Stepped::Request(r@),
        }
    }
}

/// Everything that a step works on.
#[verifier::ext_equal]
pub struct World {
    pub vm: VmModel,
    pub fiber: FiberModel,
    pub form: Form,
    pub calls: u32,
}

/// A step that is done.
pub open spec fn done(w: World, f: (Form, Result<(), Failure>)) -> (World, Result<Stepped, Failure>) {
    (
        World { form: f.0, ..w },
        match f.1 {
            Ok(_) => Ok(Stepped::Pending),
            Err(e) => Err(e),
        },
    )
}

/// A step that asks for something.
pub open spec fn ask(w: World, form: Form, a: Ask) -> (World, Result<Stepped, Failure>) {
    (World { form, ..w }, Ok(Stepped::Request(a)))
}

/// A step that may ask for something.
pub open spec fn maybe(w: World, form: Form, r: Result<Option<Ask>, Failure>) -> (
    World,
    Result<Stepped, Failure>,
) {
    (
        World { form, ..w },
        match r {
            Err(e) => Err(e),
            Ok(None) => Ok(Stepped::Pending),
            Ok(Some(a)) => Ok(Stepped::Request(a)),
        },
    )
}

pub open spec fn failed(w: World, form: Form, e: Failure) -> (World, Result<Stepped, Failure>) {
    (World { form, ..w }, Err(e))
}

/// The number that a binary operation goes by.
pub open spec fn binary_number(op: BinaryOp) -> u8 {
    match op {
        BinaryOp::Multiply => 0,
        BinaryOp::Divide => 1,
        BinaryOp::Modulo => 2,
        BinaryOp::Plus => 3,
        BinaryOp::Minus => 4,
        BinaryOp::ShiftLeft => 5,
        BinaryOp::ShiftRight => 6,
        BinaryOp::Less => 7,
        BinaryOp::LessEqual => 8,
        BinaryOp::Greater => 9,
        BinaryOp::GreaterEqual => 10,
        BinaryOp::Equal => 11,
        BinaryOp::NotEqual => 12,
        BinaryOp::BitAnd => 13,
        BinaryOp::BitXor => 14,
        BinaryOp::BitOr => 15,
        BinaryOp::LogicalAnd => 16,
        BinaryOp::LogicalXor => 17,
        BinaryOp::LogicalOr => 18,
        BinaryOp::Nand => 19,
        BinaryOp::Nor => 20,
    }
}

/// The number that a binary operation goes by.
pub fn binary_tag(op: BinaryOp) -> (r: u8)
    ensures
        r == binary_number(op),
{
    match op {
        BinaryOp::Multiply => 0,
        BinaryOp::Divide => 1,
        BinaryOp::Modulo => 2,
        BinaryOp::Plus => 3,
        BinaryOp::Minus => 4,
        BinaryOp::ShiftLeft => 5,
        BinaryOp::ShiftRight => 6,
        BinaryOp::Less => 7,
        BinaryOp::LessEqual => 8,
        BinaryOp::Greater => 9,
        BinaryOp::GreaterEqual => 10,
        BinaryOp::Equal => 11,
        BinaryOp::NotEqual => 12,
        BinaryOp::BitAnd => 13,
        BinaryOp::BitXor => 14,
        BinaryOp::BitOr => 15,
        BinaryOp::LogicalAnd => 16,
        BinaryOp::LogicalXor => 17,
        BinaryOp::LogicalOr => 18,
        BinaryOp::Nand => 19,
        BinaryOp::Nor => 20,
    }
}

/// The result of a logical operation that its left operand decides.
pub open spec fn shortcut(op: BinaryOp, left: i64) -> Option<i64> {
    match op {
        BinaryOp::LogicalAnd => if left == 0 {
            Some(0)
        } else {
            None
        },
        BinaryOp::Nand => if left == 0 {
            Some(1)
        } else {
            None
        },
        BinaryOp::LogicalOr => if left != 0 {
            Some(1)
        } else {
            None
        },
        BinaryOp::Nor => if left != 0 {
            Some(0)
        } else {
            None
        },
        _ => None,
    }
}

/// The left operand is known: it decides, or the right operand is evaluated.
pub open spec fn left_known(form: Form, op: BinaryOp, right: Tree) -> (Form, Result<(), Failure>) {
    match form_support::popped(form, "STRFORM binary left operand is missing"@) {
        (after, Err(e)) => (after, Err(e)),
        (after, Ok(left)) => {
            let decided = match left {
                Val::Integer(n) => shortcut(op, n),
                _ => None,
            };
            match decided {
                Some(n) => (after.with_value(Val::Integer(n)), Ok(())),
                None => (
                    after.with_value(left).with_task(Task::ApplyBinary(op)).with_task(
                        Task::Evaluate(right),
                    ),
                    Ok(()),
                ),
            }
        },
    }
}

/// The result of an operation is put on the value stack.
pub open spec fn computed(w: World, form: Form, r: (VmModel, Result<Val, Failure>)) -> (
    World,
    Result<Stepped, Failure>,
) {
    match r.1 {
        Err(e) => (World { vm: r.0, form, ..w }, Err(e)),
        Ok(v) => (World { vm: r.0, form: form.with_value(v), ..w }, Ok(Stepped::Pending)),
    }
}

/// A unary operation.
#[verifier::opaque]
pub open spec fn unary_applied(w: World, op: ast::UnaryOp) -> (World, Result<Stepped, Failure>) {
    match form_support::popped(w.form, "STRFORM unary operand is missing"@) {
        (after, Err(e)) => failed(w, after, e),
        (after, Ok(v)) => computed(
            w,
            after,
            arithmetic::profiled_unary(
                w.vm,
                w.form.generation,
                form_support::unary_number(op),
                v,
            ),
        ),
    }
}

/// A binary operation.
#[verifier::opaque]
pub open spec fn binary_applied(w: World, op: BinaryOp) -> (World, Result<Stepped, Failure>) {
    match form_support::popped(w.form, "STRFORM binary right operand is missing"@) {
        (after, Err(e)) => failed(w, after, e),
        (after, Ok(right)) => match form_support::popped(
            after,
            "STRFORM binary left operand is missing"@,
        ) {
            (rest, Err(e)) => failed(w, rest, e),
            (rest, Ok(left)) => computed(
                w,
                rest,
                arithmetic::profiled_binary(
                    w.vm,
                    w.form.generation,
                    binary_number(op),
                    left,
                    right,
                ),
            ),
        },
    }
}

/// A condition chooses between two steps.
pub open spec fn chosen(
    form: Form,
    message: Seq<char>,
    yes: Option<Task>,
    no: Option<Task>,
) -> (Form, Result<(), Failure>) {
    match form_support::popped_integer(form, message) {
        (after, Err(e)) => (after, Err(e)),
        (after, Ok(n)) => (
            match if n != 0 {
                yes
            } else {
                no
            } {
                Some(t) => after.with_task(t),
                None => after,
            },
            Ok(()),
        ),
    }
}

/// A variable is read.
pub open spec fn variable_pushed(w: World, name: Seq<char>, indices: nat) -> (Form, Result<(), Failure>) {
    match form_support::indices_taken(w.form, indices) {
        (after, Err(e)) => (after, Err(e)),
        (after, Ok(at)) => match form_support::variable_read(w.vm, w.fiber, after, name, at) {
            Err(e) => (after, Err(e)),
            Ok(v) => (after.with_value(v), Ok(())),
        },
    }
}

/// Tasks that render parts, the first one on top.
pub open spec fn part_tasks(parts: Seq<PartTree>) -> Seq<Task>
    decreases parts.len(),
{
    if parts.len() == 0 {
        Seq::empty()
    } else {
        part_tasks(parts.skip(1)).push(Task::RenderPart(parts[0]))
    }
}

/// A formatted text starts with an output of its own.
pub open spec fn form_started(form: Form, f: FormTree) -> (Form, Result<(), Failure>) {
    if form.outputs.len() >= MAX_RUNTIME_FORM_NESTING {
        (form, Err(form_resources::resource_failure("STRFORM nesting limit exceeded"@)))
    } else {
        (
            Form { outputs: form.outputs.push(Seq::empty()), ..form }.with_task(
                Task::FinishFormValue,
            ).with_task(Task::RenderForm(f)),
            Ok(()),
        )
    }
}

/// A formatted text ends: its output becomes a value.
pub open spec fn form_valued(form: Form) -> (Form, Result<(), Failure>) {
    if form.outputs.len() == 0 {
        (form, Err(Failure::invalid("STRFORM output stack is empty"@)))
    } else {
        (
            Form { outputs: form.outputs.drop_last(), ..form }.with_value(
                Val::Text(form.outputs.last()),
            ),
            Ok(()),
        )
    }
}

/// An evaluation ends.
#[verifier::opaque]
pub open spec fn root_completed(w: World) -> (World, Result<Stepped, Failure>) {
    let form = w.form;
    if form.host_calls.len() > 0 || form.outputs.len() > 0 || form.checkpoints.len() > 0
        || form.work.len() > 0 {
        (w, Err(Failure::invalid("runtime form root has unfinished temporary state"@)))
    } else {
        match form.completion {
            RuntimeFormRoot::Value(expected) => if form.values.len() != 1
                || form.values[0].value_type() != expected {
                (w, Err(Failure::invalid("runtime form root result type or count differs"@)))
            } else {
                (
                    World { form: Form { values: form.values.drop_last(), ..form }, ..w },
                    Ok(Stepped::Complete(form.values[0])),
                )
            },
            RuntimeFormRoot::Call { spec, failed } => if form.values.len() > 0 {
                (w, Err(Failure::invalid("call text root has an unexpected value"@)))
            } else if failed && spec.has_catch {
                match form_support::owner_at(w.fiber, form.frame) {
                    Err(e) => (w, Err(e)),
                    Ok(i) => (
                        World {
                            fiber: FiberModel {
                                frames: w.fiber.frames.update(
                                    i,
                                    FrameModel {
                                        instruction: spec.catch_target as usize,
                                        ..w.fiber.frames[i]
                                    },
                                ),
                                ..w.fiber
                            },
                            ..w
                        },
                        Ok(Stepped::CompleteCall),
                    ),
                }
            } else {
                (w, Ok(Stepped::CompleteCall))
            },
        }
    }
}

/// The input controller is asked.
#[verifier::opaque]
pub open spec fn input_stepped(
    w: World,
    form: Form,
    operation: InputOperation,
    arguments: Seq<Val>,
    gate: Option<(Tree, bool)>,
) -> (World, Result<Stepped, Failure>) {
    let (vm, after, calls, r) = form_queries::input_asked(
        w.vm,
        w.fiber,
        form,
        w.calls,
        operation,
        arguments,
        gate,
    );
    (
        World { vm, form: after, calls, ..w },
        match r {
            Err(e) => Err(e),
            Ok(a) => Ok(Stepped::Request(Ask::Input(a))),
        },
    )
}

/// A variable is incremented or decremented.
#[verifier::opaque]
pub open spec fn mutate_step(w: World, variable: SymbolKey, indices: usize, mode: u8) -> (World, Result<Stepped, Failure>) {
    match form_queries::mutation_begun(w.vm, w.fiber, w.form, variable, indices as nat, mode) {
        (after, Err(e)) => failed(w, after, e),
        (after, Ok(place)) => ask(w, after, Ask::Mutate(place, mode)),
    }
}

/// EXISTVAR looks its name up.
#[verifier::opaque]
pub open spec fn lookup_step(w: World, plan: u64, source: Tree, mode: Option<Tree>) -> (World, Result<Stepped, Failure>) {
    done(w, form_queries::existvar_looked_up(w.vm, w.form, plan, source, mode))
}

/// EXISTVAR takes its mode.
#[verifier::opaque]
pub open spec fn mode_step(w: World, source: Tree) -> (World, Result<Stepped, Failure>) {
    done(w, form_queries::existvar_switched(w.vm, w.fiber, w.form, source))
}

/// The place of a variable is captured.
#[verifier::opaque]
pub open spec fn place_step(w: World, key: SymbolKey, indices: usize) -> (World, Result<Stepped, Failure>) {
    done(w, form_symbols::place_captured(w.vm, w.fiber, w.form, key, indices as nat))
}

/// A variable is read.
#[verifier::opaque]
pub open spec fn variable_step(w: World, name: Seq<char>, indices: usize) -> (World, Result<Stepped, Failure>) {
    done(w, variable_pushed(w, name, indices as nat))
}

/// The right operand is evaluated where it is needed.
#[verifier::opaque]
pub open spec fn right_step(w: World, op: BinaryOp, right: Tree) -> (World, Result<Stepped, Failure>) {
    done(w, left_known(w.form, op, right))
}

/// A condition chooses between two steps.
#[verifier::opaque]
pub open spec fn choice_step(w: World, message: Seq<char>, yes: Task, no: Option<Task>) -> (World, Result<Stepped, Failure>) {
    done(w, chosen(w.form, message, Some(yes), no))
}

/// A step with an operator or a variable.
pub open spec fn operator_step(w: World, t: Task) -> Option<(World, Result<Stepped, Failure>)> {
    match t {
        Task::ReadVariable(name, indices) => Some(variable_step(w, name, indices)),
        Task::ApplyUnary(op) => Some(unary_applied(w, op)),
        Task::EvaluateBinaryRight(op, right) => Some(right_step(w, op, right)),
        Task::ApplyBinary(op) => Some(binary_applied(w, op)),
        Task::ChooseTernary(a, b) => Some(
            choice_step(
                w,
                "STRFORM ternary condition is not an integer"@,
                Task::Evaluate(a),
                Some(Task::Evaluate(b)),
            ),
        ),
        Task::PushOmitted => Some(
            done(w, (w.form.with_value(Val::Integer(i64::MIN)), Ok(()))),
        ),
        Task::MutateVariable(variable, indices, mode) => Some(
            mutate_step(w, variable, indices, mode),
        ),
        Task::ExistVarFirst(plan, source, mode) => Some(lookup_step(w, plan, source, mode)),
        Task::ExistVarMode(_, source) => Some(mode_step(w, source)),
        Task::CaptureReferencePlace(key, indices) => Some(place_step(w, key, indices)),
        _ => None,
    }
}

/// A part of a formatted text is rendered.
#[verifier::opaque]
pub open spec fn part_step(w: World, p: PartTree) -> (World, Result<Stepped, Failure>) {
    done(w, form_calls::part_rendered(w.vm, w.fiber, w.form, p))
}

/// A value is interpolated.
#[verifier::opaque]
pub open spec fn interpolation_step(w: World, string: bool, width: bool, alignment: Option<Alignment>) -> (World, Result<Stepped, Failure>) {
    let (after, r) = form_services::interpolated(w.form, string, width, alignment);
    maybe(
        w,
        after,
        match r {
            Err(e) => Err(e),
            Ok(None) => Ok(None),
            Ok(Some(p)) => Ok(Some(Ask::Pad(p))),
        },
    )
}

/// A formatted text starts.
#[verifier::opaque]
pub open spec fn start_step(w: World, f: FormTree) -> (World, Result<Stepped, Failure>) {
    done(w, form_started(w.form, f))
}

/// A formatted text ends.
#[verifier::opaque]
pub open spec fn value_step(w: World) -> (World, Result<Stepped, Failure>) {
    done(w, form_valued(w.form))
}

/// A checked formatted text ends.
#[verifier::opaque]
pub open spec fn checked_step(w: World, id: u64) -> (World, Result<Stepped, Failure>) {
    done(w, form_checkpoints::check_finished(w.form, id))
}

/// An earlier plan comes back.
#[verifier::opaque]
pub open spec fn restore_step(w: World, previous: Option<u64>) -> (World, Result<Stepped, Failure>) {
    done(w, form_plans::plan_restored(w.form, previous))
}

/// A step of a formatted text.
pub open spec fn text_step(w: World, t: Task) -> Option<(World, Result<Stepped, Failure>)> {
    match t {
        Task::StartForm(f) => Some(start_step(w, f)),
        Task::RenderForm(f) => Some(
            done(w, (form_support::with_tasks(w.form, part_tasks(f.parts)), Ok(()))),
        ),
        Task::RenderPart(p) => Some(part_step(w, p)),
        Task::FinishFormValue => Some(value_step(w)),
        Task::FinishInterpolation(string, width, alignment) => Some(
            interpolation_step(w, string, width, alignment),
        ),
        Task::ChooseConditional(a, b) => Some(
            choice_step(
                w,
                "STRFORM conditional expects an integer"@,
                Task::RenderForm(a),
                match b {
                    Some(f) => Some(Task::RenderForm(f)),
                    None => None,
                },
            ),
        ),
        Task::FinishCheck(id) => Some(checked_step(w, id)),
        Task::RestoreCallPlan(previous) => Some(restore_step(w, previous)),
        Task::RestoreReferenceBindings(b) => Some(
            done(w, (Form { reference_bindings: b, ..w.form }, Ok(()))),
        ),
        Task::ReleaseReferenceArguments => Some(
            done(
                w,
                (Form { reference_bindings: false, pending: None, ..w.form }, Ok(())),
            ),
        ),
        Task::CompleteRoot => Some(root_completed(w)),
        _ => None,
    }
}

/// An expression is evaluated.
#[verifier::opaque]
pub open spec fn expression_step(w: World, e: Tree) -> (World, Result<Stepped, Failure>) {
    let (after, r) = form_calls::expression_scheduled(w.vm, w.form, e);
    maybe(
        w,
        after,
        match r {
            Err(e) => Err(e),
            Ok(None) => Ok(None),
            Ok(Some(m)) => Ok(Some(Ask::Match(m))),
        },
    )
}

/// STRFORM or STRFORMCHECK is called.
#[verifier::opaque]
pub open spec fn form_call_step(
    w: World,
    providers: NativeProviders,
    name: Seq<char>,
    count: usize,
) -> (World, Result<Stepped, Failure>) {
    match form_support::taken(w.form, count as nat) {
        (after, Err(e)) => failed(w, after, e),
        (after, Ok(arguments)) => match form_services::form_called(
            w.vm,
            w.fiber,
            providers,
            after,
            name,
            arguments,
        ) {
            (last, Err(e)) => failed(w, last, e),
            (last, Ok(source)) => ask(w, last, Ask::ParseForm(source)),
        },
    }
}

/// A service is called.
#[verifier::opaque]
pub open spec fn native_step(
    w: World,
    providers: NativeProviders,
    bound: BoundService,
    source: Seq<Option<Tree>>,
) -> (World, Result<Stepped, Failure>) {
    match form_support::taken(w.form, source.len()) {
        (after, Err(e)) => failed(w, after, e),
        (after, Ok(arguments)) => match form_services::native_begun(
            w.vm,
            w.fiber,
            providers,
            after,
            bound,
            arguments,
        ) {
            Err(e) => failed(w, after, e),
            Ok(depth) => ask(w, after, Ask::Native(bound, arguments, depth)),
        },
    }
}

/// A checked formatted text begins.
#[verifier::opaque]
pub open spec fn check_step(w: World, source: Seq<char>) -> (World, Result<Stepped, Failure>) {
    match form_services::check_begun(w.vm, w.fiber, w.form, source) {
        (after, Err(e)) => failed(w, after, e),
        (after, Ok(_)) => ask(w, after, Ask::ParseForm(source)),
    }
}

/// A call text begins.
#[verifier::opaque]
pub open spec fn call_text_step(w: World, source: Seq<char>, spec: CallTextSpec) -> (
    World,
    Result<Stepped, Failure>,
) {
    match form_call_text::text_begun(w.vm, w.form, source) {
        (after, Err(e)) => failed(w, after, e),
        (after, Ok(_)) => ask(w, after, Ask::ParseCallText(source, spec)),
    }
}

/// EXISTVAR asks for a parse of its source.
#[verifier::opaque]
pub open spec fn probe_step(w: World, id: u64) -> (World, Result<Stepped, Failure>) {
    match form_queries::probe_begun(w.form, id) {
        (after, Err(e)) => failed(w, after, e),
        (after, Ok(source)) => ask(w, after, Ask::ParseProbe(id, source)),
    }
}

/// EXISTMETH asks for a method.
#[verifier::opaque]
pub open spec fn exists_step(w: World) -> (World, Result<Stepped, Failure>) {
    match form_services::exists_begun(w.vm, w.form) {
        (after, Err(e)) => failed(w, after, e),
        (after, Ok(name)) => ask(w, after, Ask::ExistsMethod(name)),
    }
}

/// A method is resolved.
#[verifier::opaque]
pub open spec fn method_step(
    w: World,
    plan: u64,
    result: MethodResult,
    fallback: Option<Tree>,
    arguments: Seq<Option<Tree>>,
) -> (World, Result<Stepped, Failure>) {
    let (vm, after, r) = form_methods::method_resolved(
        w.vm,
        w.form,
        plan,
        result,
        fallback,
        arguments,
    );
    done(World { vm, ..w }, (after, r))
}

/// Reduced arguments are bound.
#[verifier::opaque]
pub open spec fn binding_step(w: World, target: SymbolKey, spec: CallTextSpec) -> (
    World,
    Result<Stepped, Failure>,
) {
    let (vm, after, r) = form_call_text::text_bound(w.vm, w.fiber, w.form, target, spec);
    done(World { vm, ..w }, (after, r))
}

/// Arguments are reduced.
#[verifier::opaque]
pub open spec fn pump_step(w: World) -> (World, Result<Stepped, Failure>) {
    let (after, r) = form_pump::advanced(w.vm, w.form);
    maybe(
        w,
        after,
        match r {
            Err(e) => Err(e),
            Ok(None) => Ok(None),
            Ok(Some(p)) => Ok(Some(Ask::Predicate(p))),
        },
    )
}

/// A step of a call.
pub open spec fn call_step(w: World, providers: NativeProviders, t: Task) -> Option<
    (World, Result<Stepped, Failure>),
> {
    match t {
        Task::Evaluate(e) => Some(expression_step(w, e)),
        Task::FinishCall(name, count) => Some(form_call_step(w, providers, name, count)),
        Task::FinishNative(_, bound, source) => Some(native_step(w, providers, bound, source)),
        Task::BeginCheckedForm(source) => Some(check_step(w, source)),
        Task::ParseCallText(source, spec) => Some(call_text_step(w, source, spec)),
        Task::FinishExpressionProbe(id) => Some(probe_step(w, id)),
        Task::ExistsMethod => Some(exists_step(w)),
        Task::ResolveMethod(plan, result, fallback, arguments) => Some(
            method_step(w, plan, result, fallback, arguments),
        ),
        Task::MethodArgument(call) => Some(ask(w, w.form, Ask::Method(call))),
        Task::CaptureMethodArgument(call) => Some(ask(w, w.form, Ask::CaptureArgument(call))),
        Task::FinishCallTextArguments(target, spec) => Some(binding_step(w, target, spec)),
        Task::FinishCallTextArgumentCatch(_) => Some(
            failed(
                w,
                w.form,
                Failure::invalid("CALLSTR argument checkpoint escaped its user-call state"@),
            ),
        ),
        Task::ReferenceArgumentsPump => Some(pump_step(w)),
        _ => None,
    }
}

/// The result of the input controller is read.
#[verifier::opaque]
pub open spec fn read_step(w: World, depth: usize, gate: Option<(Tree, bool)>) -> (
    World,
    Result<Stepped, Failure>,
) {
    let (fiber, after, r) = form_queries::input_read(w.fiber, w.form, depth as nat, gate);
    done(World { fiber, ..w }, (after, r))
}

/// A host call goes on.
#[verifier::opaque]
pub open spec fn host_step(w: World, id: u64) -> (World, Result<Stepped, Failure>) {
    let (fiber, after, r) = form_hosts::host_advanced(w.vm, w.fiber, w.form, id);
    maybe(
        World { fiber, ..w },
        after,
        match r {
            Err(e) => Err(e),
            Ok(Asked::Pending) => Ok(None),
            Ok(a) => Ok(Some(Ask::Host(a))),
        },
    )
}

/// The input controller is asked with the operands on the value stack.
#[verifier::opaque]
pub open spec fn operands_step(w: World, operation: InputOperation, count: usize) -> (
    World,
    Result<Stepped, Failure>,
) {
    match form_support::taken(w.form, count as nat) {
        (after, Err(e)) => failed(w, after, e),
        (after, Ok(arguments)) => input_stepped(w, after, operation, arguments, None),
    }
}

/// A step of a service outside the machine.
pub open spec fn service_step(w: World, t: Task) -> Option<(World, Result<Stepped, Failure>)> {
    match t {
        Task::GateInputHost(_, key, triggered) => Some(
            input_stepped(
                w,
                w.form,
                InputOperation::KeyActive,
                Seq::empty(),
                Some((key, triggered)),
            ),
        ),
        Task::FinishInputHost(operation, count) => Some(operands_step(w, operation, count)),
        Task::ReadInputHost(depth, gate) => Some(read_step(w, depth, gate)),
        Task::HostAdvance(id) => Some(host_step(w, id)),
        Task::BitCapture(spec, site, source) => Some(
            ask(w, w.form, Ask::BitCapture(spec, site, source)),
        ),
        Task::BitFinish(call) => Some(ask(w, w.form, Ask::BitFinish(call))),
        Task::MapCapture(bound, site, arguments) => Some(
            ask(w, w.form, Ask::MapCapture(bound, site, arguments)),
        ),
        Task::MapValuesEnabled(call, output) => Some(
            ask(w, w.form, Ask::MapValues(call, output)),
        ),
        Task::MapFinish(call) => Some(ask(w, w.form, Ask::MapFinish(call))),
        Task::Match(stage, call) => Some(ask(w, w.form, Ask::MatchStage(stage, call))),
        _ => None,
    }
}

/// One step with a task.
pub open spec fn handled(w: World, providers: NativeProviders, t: Task) -> (
    World,
    Result<Stepped, Failure>,
) {
    match operator_step(w, t) {
        Some(r) => r,
        None => match text_step(w, t) {
            Some(r) => r,
            None => match call_step(w, providers, t) {
                Some(r) => r,
                None => match service_step(w, t) {
                    Some(r) => r,
                    None => (w, Ok(Stepped::Pending)),
                },
            },
        },
    }
}

/// The limits of the machine are checked before there is more to do.
pub open spec fn settled(w: World, r: Result<Stepped, Failure>) -> (World, Result<Stepped, Failure>) {
    match r {
        Ok(Stepped::Pending) => match form_resources::checked(
            w.form,
            w.vm.config.maximum_operand_stack,
        ) {
            Err(e) => (w, Err(e)),
            Ok(_) => (w, r),
        },
        _ => (w, r),
    }
}

/// One step of an evaluation.
pub open spec fn stepped(w: World, providers: NativeProviders) -> (World, Result<Stepped, Failure>) {
    if w.form.awaiting is Some {
        (w, Ok(Stepped::Request(Ask::UserWait)))
    } else if w.form.work.len() == 0 {
        (w, Err(Failure::invalid("STRFORM continuation ended without a result"@)))
    } else {
        let rest = World { form: Form { work: w.form.work.drop_last(), ..w.form }, ..w };
        let (after, r) = handled(rest, providers, w.form.work.last());
        settled(after, r)
    }
}

/// A step that was made, or the task that is made elsewhere.
pub(crate) type Turn = Result<Result<RuntimeFormStep, StepError>, RuntimeFormTask>;

/// A group of steps made its step, or left everything as it was.
pub open spec fn turned(
    expected: Option<(World, Result<Stepped, Failure>)>,
    before: World,
    task: Task,
    after: World,
    r: Result<Result<RuntimeFormStep, StepError>, RuntimeFormTask>,
) -> bool {
    match expected {
        Some(e) => r is Ok && (after, fault::outcome(r->Ok_0)) == e,
        None => r is Err && r->Err_0@ == task && after == before,
    }
}

fn pending(r: Result<(), StepError>) -> (q: Result<RuntimeFormStep, StepError>)
    ensures
        fault::outcome(q) == match r {
            Ok(_) => Ok::<Stepped, Failure>(Stepped::Pending),
            Err(e) => Err(e@),
        },
{
    match r {
        Ok(_) => Ok(RuntimeFormStep::Pending),
        Err(e) => Err(e),
    }
}

fn decides(op: BinaryOp, left: i64) -> (r: Option<i64>)
    ensures
        r == shortcut(op, left),
{
    match op {
        BinaryOp::LogicalAnd => if left == 0 {
            Some(0)
        } else {
            None
        },
        BinaryOp::Nand => if left == 0 {
            Some(1)
        } else {
            None
        },
        BinaryOp::LogicalOr => if left != 0 {
            Some(1)
        } else {
            None
        },
        BinaryOp::Nor => if left != 0 {
            Some(0)
        } else {
            None
        },
        _ => None,
    }
}

impl RuntimeFormContinuation {
    fn take_left(&mut self, op: BinaryOp, right: Rc<Expr>) -> (r: Result<(), StepError>)
        ensures
            (final(self)@, form_resources::unit_result(r)) == left_known(
                old(self)@,
                op,
                right@,
            ),
    {
        let left = match self.pop_value("STRFORM binary left operand is missing") {
            Err(e) => {
                return Err(e);
            },
            Ok(v) => v,
        };
        let decided: Option<i64> = match &left {
            VmValue::Integer(n) => decides(op, *n),
            _ => None,
        };
        match decided {
            Some(n) => {
                self.push_value(VmValue::Integer(n));
            },
            None => {
                self.push_value(left);
                self.push_task(RuntimeFormTask::ApplyBinary(op));
                self.push_task(RuntimeFormTask::Evaluate(right));
            },
        }
        Ok(())
    }

    fn apply_unary(&mut self, vm: &mut Vm, Ghost(w): Ghost<World>, op: ast::UnaryOp) -> (r: Result<(), StepError>)
        requires
            old(vm)@.program(old(self)@.generation) is Some,
            w.vm == old(vm)@,
            w.form == old(self)@,
        ensures
            (World { vm: final(vm)@, form: final(self)@, ..w }, match r {
                Ok(_) => Ok::<Stepped, Failure>(Stepped::Pending),
                Err(e) => Err(e@),
            }) == unary_applied(w, op),
    {
        proof {
            reveal(unary_applied);
        }
        let v = match self.pop_value("STRFORM unary operand is missing") {
            Err(e) => {
                return Err(e);
            },
            Ok(v) => v,
        };
        match vm.unary_value(self.generation, form_support::unary_tag(op), v) {
            Err(e) => Err(e),
            Ok(v) => {
                self.push_value(v);
                Ok(())
            },
        }
    }

    fn apply_binary(&mut self, vm: &mut Vm, Ghost(w): Ghost<World>, op: BinaryOp) -> (r: Result<(), StepError>)
        requires
            old(vm)@.program(old(self)@.generation) is Some,
            w.vm == old(vm)@,
            w.form == old(self)@,
        ensures
            (World { vm: final(vm)@, form: final(self)@, ..w }, match r {
                Ok(_) => Ok::<Stepped, Failure>(Stepped::Pending),
                Err(e) => Err(e@),
            }) == binary_applied(w, op),
    {
        proof {
            reveal(binary_applied);
        }
        let right = match self.pop_value("STRFORM binary right operand is missing") {
            Err(e) => {
                return Err(e);
            },
            Ok(v) => v,
        };
        let left = match self.pop_value("STRFORM binary left operand is missing") {
            Err(e) => {
                return Err(e);
            },
            Ok(v) => v,
        };
        match vm.binary_value(self.generation, binary_tag(op), left, right) {
            Err(e) => Err(e),
            Ok(v) => {
                self.push_value(v);
                Ok(())
            },
        }
    }

    fn branch(&mut self, message: &str, yes: RuntimeFormTask, no: Option<RuntimeFormTask>) -> (r: Result<
        (),
        StepError,
    >)
        ensures
            (final(self)@, form_resources::unit_result(r)) == chosen(
                old(self)@,
                message@,
                Some(yes@),
                match no {
                    Some(t) => Some(t@),
                    None => None,
                },
            ),
    {
        let n: i64 = match self.pop_integer(message) {
            Err(e) => {
                return Err(e);
            },
            Ok(n) => n,
        };
        if n != 0 {
            self.push_task(yes);
        } else {
            match no {
                Some(t) => {
                    self.push_task(t);
                },
                None => {},
            }
        }
        Ok(())
    }

    fn push_variable(
        &mut self,
        vm: &Vm,
        fiber: &Fiber,
        Ghost(w): Ghost<World>,
        name: &str,
        indices: usize,
    ) -> (r: Result<(), StepError>)
        requires
            w.vm == vm@,
            w.fiber == fiber@,
            w.form == old(self)@,
        ensures
            (final(self)@, form_resources::unit_result(r)) == variable_pushed(
                w,
                name@,
                indices as nat,
            ),
    {
        let at = match self.take_indices(indices) {
            Err(e) => {
                return Err(e);
            },
            Ok(v) => v,
        };
        match self.read_variable(vm, fiber, name, at) {
            Err(e) => Err(e),
            Ok(v) => {
                self.push_value(v);
                Ok(())
            },
        }
    }

    #[verifier::rlimit(30)]
    #[verifier::spinoff_prover]
    pub(crate) fn operator_turn(
        &mut self,
        vm: &mut Vm,
        fiber: &Fiber,
        Ghost(w): Ghost<World>,
        task: RuntimeFormTask,
    ) -> (r: Turn)
        requires
            old(vm)@.program(old(self)@.generation) is Some,
            w.vm == old(vm)@,
            w.fiber == fiber@,
            w.form == old(self)@,
        ensures
            turned(
                operator_step(w, task@),
                w,
                task@,
                World { vm: final(vm)@, form: final(self)@, ..w },
                r,
            ),
    {
        let g = Ghost(w);
        let step = match task {
            RuntimeFormTask::ReadVariable { name, indices } => self.turn_variable(
                vm,
                fiber,
                g,
                name,
                indices,
            ),
            RuntimeFormTask::ApplyUnary(op) => pending(self.apply_unary(vm, g, op)),
            RuntimeFormTask::EvaluateBinaryRight { op, right } => self.turn_right(
                vm,
                fiber,
                g,
                op,
                right,
            ),
            RuntimeFormTask::ApplyBinary(op) => pending(self.apply_binary(vm, g, op)),
            RuntimeFormTask::ChooseTernary { then_expr, else_expr } => self.turn_choice(
                vm,
                fiber,
                g,
                "STRFORM ternary condition is not an integer",
                RuntimeFormTask::Evaluate(then_expr),
                Some(RuntimeFormTask::Evaluate(else_expr)),
            ),
            RuntimeFormTask::PushOmitted => {
                self.push_value(VmValue::Integer(i64::MIN));
                Ok(RuntimeFormStep::Pending)
            },
            RuntimeFormTask::MutateVariable { variable, indices, mode } => self.turn_mutation(
                vm,
                fiber,
                g,
                variable,
                indices,
                mode,
            ),
            RuntimeFormTask::ExistVarFirst { plan, source, mode } => self.turn_lookup(
                vm,
                fiber,
                g,
                plan,
                source,
                mode,
            ),
            RuntimeFormTask::ExistVarMode { source, .. } => self.turn_mode(vm, fiber, g, source),
            RuntimeFormTask::CaptureReferencePlace { key, indices } => self.turn_place(
                vm,
                fiber,
                g,
                key,
                indices,
            ),
            other => {
                return Err(other);
            },
        };
        Ok(step)
    }
}

proof fn lemma_part_tasks(parts: Seq<PartTree>, k: int)
    requires
        0 <= k < parts.len(),
    ensures
        part_tasks(parts.skip(k)) == part_tasks(parts.skip(k + 1)).push(Task::RenderPart(parts[k])),
{
    assert(parts.skip(k).skip(1) =~= parts.skip(k + 1));
    assert(parts.skip(k)[0] == parts[k]);
}

impl RuntimeFormContinuation {
    fn push_parts(&mut self, f: &FormattedString)
        ensures
            final(self)@ == form_support::with_tasks(old(self)@, part_tasks(f@.parts)),
    {
        let ghost all = ast::part_trees(f.parts@);
        let ghost start = self@;
        proof {
            ast::lemma_part_trees(f.parts@);
            assert(all.skip(all.len() as int) =~= Seq::<PartTree>::empty());
            assert(start.work + Seq::<Task>::empty() =~= start.work);
        }
        let mut k: usize = f.parts.len();
        while k > 0
            invariant
                k <= f.parts.len(),
                all == ast::part_trees(f.parts@),
                all.len() == f.parts@.len(),
                forall|j: int|
                    0 <= j < f.parts@.len() ==> #[trigger] all[j] == ast::part_tree(*f.parts@[j]),
                self@ == form_support::with_tasks(start, part_tasks(all.skip(k as int))),
            decreases k,
        {
            k = k - 1;
            proof {
                lemma_part_tasks(all, k as int);
            }
            self.push_task(RuntimeFormTask::RenderPart(f.parts[k].clone()));
            assert(self@.work =~= start.work + part_tasks(all.skip(k as int)));
        }
        assert(all.skip(0) =~= all);
    }

    fn start_form(&mut self, f: Rc<FormattedString>) -> (r: Result<(), StepError>)
        ensures
            (final(self)@, form_resources::unit_result(r)) == form_started(old(self)@, f@),
    {
        let ghost outputs = self@.outputs;
        assert(outputs.len() == self.outputs@.len());
        if self.outputs.len() >= MAX_RUNTIME_FORM_NESTING {
            return Err(form_resources::resource_limit("STRFORM nesting limit exceeded"));
        }
        let empty = String::new();
        assert(empty@ =~= Seq::<char>::empty());
        self.outputs.push(empty);
        assert(forms::output_views(self.outputs@) =~= outputs.push(Seq::empty()));
        self.push_task(RuntimeFormTask::FinishFormValue);
        self.push_task(RuntimeFormTask::RenderForm(f));
        Ok(())
    }

    fn finish_form_value(&mut self) -> (r: Result<(), StepError>)
        ensures
            (final(self)@, form_resources::unit_result(r)) == form_valued(old(self)@),
    {
        let ghost outputs = self@.outputs;
        assert(outputs.len() == self.outputs@.len());
        match self.outputs.pop() {
            None => Err(invalid("STRFORM output stack is empty")),
            Some(s) => {
                assert(outputs.last() == s@);
                assert(forms::output_views(self.outputs@) =~= outputs.drop_last());
                self.push_value(VmValue::String(s));
                Ok(())
            },
        }
    }

    fn complete_root(&mut self, fiber: &mut Fiber, Ghost(w): Ghost<World>) -> (r: Result<
        RuntimeFormStep,
        StepError,
    >)
        requires
            w.fiber == old(fiber)@,
            w.form == old(self)@,
        ensures
            (
                World { fiber: final(fiber)@, form: final(self)@, ..w },
                fault::outcome(r),
            ) == root_completed(w),
    {
        proof {
            reveal(root_completed);
        }
        let ghost values = self@.values;
        assert(w.form.host_calls.len() == self.host_calls@.len());
        assert(w.form.outputs.len() == self.outputs@.len());
        assert(w.form.work.len() == self.work@.len());
        assert(values.len() == self.values@.len());
        if self.host_calls.len() > 0 || self.outputs.len() > 0 || self.checkpoints.len() > 0
            || self.work.len() > 0 {
            return Err(invalid("runtime form root has unfinished temporary state"));
        }
        match self.completion {
            RuntimeFormRoot::Value(expected) => {
                let differs = "runtime form root result type or count differs";
                if self.values.len() != 1 {
                    return Err(invalid(differs));
                }
                assert(values[0] == self.values@[0]@);
                if self.values[0].value_type() != expected {
                    return Err(invalid(differs));
                }
                match self.values.pop() {
                    None => Err(invalid(differs)),
                    Some(v) => {
                        assert(value::vals(self.values@) =~= values.drop_last());
                        Ok(RuntimeFormStep::Complete(v))
                    },
                }
            },
            RuntimeFormRoot::Call { spec, failed } => {
                if self.values.len() > 0 {
                    return Err(invalid("call text root has an unexpected value"));
                }
                if failed && spec.has_catch {
                    match form_support::owner_frame_mut(fiber, self.frame) {
                        Err(e) => {
                            return Err(e);
                        },
                        Ok(owner) => {
                            owner.instruction = spec.catch_target as usize;
                        },
                    }
                }
                Ok(RuntimeFormStep::CompleteCall)
            },
        }
    }

    #[verifier::rlimit(30)]
    #[verifier::spinoff_prover]
    pub(crate) fn text_turn(
        &mut self,
        vm: &Vm,
        fiber: &mut Fiber,
        Ghost(w): Ghost<World>,
        task: RuntimeFormTask,
    ) -> (r: Turn)
        requires
            w.vm == vm@,
            w.fiber == old(fiber)@,
            w.form == old(self)@,
        ensures
            turned(
                text_step(w, task@),
                w,
                task@,
                World { fiber: final(fiber)@, form: final(self)@, ..w },
                r,
            ),
    {
        let g = Ghost(w);
        let step = match task {
            RuntimeFormTask::StartForm(f) => self.turn_start(vm, fiber, g, f),
            RuntimeFormTask::RenderForm(f) => {
                self.push_parts(&f);
                Ok(RuntimeFormStep::Pending)
            },
            RuntimeFormTask::RenderPart(p) => self.turn_part(vm, fiber, g, p),
            RuntimeFormTask::FinishFormValue => self.turn_value(vm, fiber, g),
            RuntimeFormTask::FinishInterpolation { string, width, alignment } => {
                self.turn_interpolation(vm, fiber, g, string, width, alignment)
            },
            RuntimeFormTask::ChooseConditional { then_value, else_value } => {
                let other = match else_value {
                    Some(f) => Some(RuntimeFormTask::RenderForm(f)),
                    None => None,
                };
                self.turn_choice(
                    vm,
                    fiber,
                    g,
                    "STRFORM conditional expects an integer",
                    RuntimeFormTask::RenderForm(then_value),
                    other,
                )
            },
            RuntimeFormTask::FinishCheck(id) => self.turn_checked(vm, fiber, g, id),
            RuntimeFormTask::RestoreCallPlan(previous) => self.turn_restore(
                vm,
                fiber,
                g,
                previous,
            ),
            RuntimeFormTask::RestoreReferenceBindings(previous) => {
                self.reference_bindings = previous;
                Ok(RuntimeFormStep::Pending)
            },
            RuntimeFormTask::ReleaseReferenceArguments => {
                self.reference_bindings = false;
                self.reference_arguments = None;
                Ok(RuntimeFormStep::Pending)
            },
            RuntimeFormTask::CompleteRoot => self.complete_root(fiber, g),
            other => {
                return Err(other);
            },
        };
        Ok(step)
    }
}

impl RuntimeFormContinuation {
    fn turn_expression(
        &mut self,
        vm: &Vm,
        fiber: &Fiber,
        natives: &NativeProviders,
        Ghost(w): Ghost<World>,
        e: Rc<Expr>,
    ) -> (r: Result<RuntimeFormStep, StepError>)
        requires
            w.vm == vm@,
            w.fiber == fiber@,
            w.form == old(self)@,
        ensures
            (World { form: final(self)@, ..w }, fault::outcome(r)) == expression_step(w, e@),
    {
        proof {
            reveal(expression_step);
        }
        match self.evaluate_expression(vm, &e) {
            Err(e) => Err(e),
            Ok(None) => Ok(RuntimeFormStep::Pending),
            Ok(Some(m)) => Ok(RuntimeFormStep::Request(FormRequest::Match(m))),
        }
    }

    fn turn_form_call(
        &mut self,
        vm: &Vm,
        fiber: &Fiber,
        natives: &NativeProviders,
        Ghost(w): Ghost<World>,
        name: String,
        count: usize,
    ) -> (r: Result<RuntimeFormStep, StepError>)
        requires
            w.vm == vm@,
            w.fiber == fiber@,
            w.form == old(self)@,
        ensures
            (World { form: final(self)@, ..w }, fault::outcome(r)) == form_call_step(w, *natives, name@, count),
    {
        proof {
            reveal(form_call_step);
        }
        let arguments = match self.take_values(count) {
            Err(e) => {
                return Err(e);
            },
            Ok(v) => v,
        };
        match self.finish_call(vm, fiber, natives, name.as_str(), arguments) {
            Err(e) => Err(e),
            Ok(source) => Ok(RuntimeFormStep::Request(FormRequest::ParseForm(source))),
        }
    }

    fn turn_native(
        &mut self,
        vm: &Vm,
        fiber: &Fiber,
        natives: &NativeProviders,
        Ghost(w): Ghost<World>,
        bound: Rc<BoundRuntimeNative>,
        source: Vec<Option<Rc<Expr>>>,
    ) -> (r: Result<RuntimeFormStep, StepError>)
        requires
            w.vm == vm@,
            w.fiber == fiber@,
            w.form == old(self)@,
        ensures
            (World { form: final(self)@, ..w }, fault::outcome(r)) == native_step(
                w,
                *natives,
                bound@,
                ast::argument_trees(source@),
            ),
    {
        proof {
            reveal(native_step);
        }
        proof {
            ast::lemma_argument_trees(source@);
        }
        let operands = match self.take_values(source.len()) {
            Err(e) => {
                return Err(e);
            },
            Ok(v) => v,
        };
        match self.begin_native(vm, fiber, natives, &bound, &operands) {
            Err(e) => Err(e),
            Ok(depth) => Ok(
                RuntimeFormStep::Request(FormRequest::Native { service: bound, operands, depth }),
            ),
        }
    }

    fn turn_check(
        &mut self,
        vm: &Vm,
        fiber: &Fiber,
        natives: &NativeProviders,
        Ghost(w): Ghost<World>,
        source: String,
    ) -> (r: Result<RuntimeFormStep, StepError>)
        requires
            w.vm == vm@,
            w.fiber == fiber@,
            w.form == old(self)@,
        ensures
            (World { form: final(self)@, ..w }, fault::outcome(r)) == check_step(w, source@),
    {
        proof {
            reveal(check_step);
        }
        match self.begin_checked_form(vm, fiber, source.as_str()) {
            Err(e) => Err(e),
            Ok(_) => Ok(RuntimeFormStep::Request(FormRequest::ParseForm(source))),
        }
    }

    fn turn_call_text(
        &mut self,
        vm: &Vm,
        fiber: &Fiber,
        natives: &NativeProviders,
        Ghost(w): Ghost<World>,
        text: String,
        call: CallTextSpec,
    ) -> (r: Result<RuntimeFormStep, StepError>)
        requires
            w.vm == vm@,
            w.fiber == fiber@,
            w.form == old(self)@,
        ensures
            (World { form: final(self)@, ..w }, fault::outcome(r)) == call_text_step(w, text@, call),
    {
        proof {
            reveal(call_text_step);
        }
        match self.begin_call_text(vm, text.as_str()) {
            Err(e) => Err(e),
            Ok(_) => Ok(RuntimeFormStep::Request(FormRequest::ParseCallText { text, call })),
        }
    }

    fn turn_probe(
        &mut self,
        vm: &Vm,
        fiber: &Fiber,
        natives: &NativeProviders,
        Ghost(w): Ghost<World>,
        id: u64,
    ) -> (r: Result<RuntimeFormStep, StepError>)
        requires
            w.vm == vm@,
            w.fiber == fiber@,
            w.form == old(self)@,
        ensures
            (World { form: final(self)@, ..w }, fault::outcome(r)) == probe_step(w, id),
    {
        proof {
            reveal(probe_step);
        }
        match self.begin_expression_probe(id) {
            Err(e) => Err(e),
            Ok(probe) => Ok(RuntimeFormStep::Request(FormRequest::ParseProbe { id, probe })),
        }
    }

    fn turn_exists(
        &mut self,
        vm: &Vm,
        fiber: &Fiber,
        natives: &NativeProviders,
        Ghost(w): Ghost<World>,
    ) -> (r: Result<RuntimeFormStep, StepError>)
        requires
            w.vm == vm@,
            w.fiber == fiber@,
            w.form == old(self)@,
        ensures
            (World { form: final(self)@, ..w }, fault::outcome(r)) == exists_step(w),
    {
        proof {
            reveal(exists_step);
        }
        match self.begin_exists_method(vm) {
            Err(e) => Err(e),
            Ok(name) => Ok(RuntimeFormStep::Request(FormRequest::ExistsMethod(name))),
        }
    }

    fn turn_method(
        &mut self,
        vm: &mut Vm,
        fiber: &Fiber,
        natives: &NativeProviders,
        Ghost(w): Ghost<World>,
        plan: u64,
        result: MethodResult,
        fallback: Option<Rc<Expr>>,
        arguments: Vec<Option<Rc<Expr>>>,
    ) -> (r: Result<RuntimeFormStep, StepError>)
        requires
            w.vm == old(vm)@,
            w.fiber == fiber@,
            w.form == old(self)@,
        ensures
            (World { vm: final(vm)@, form: final(self)@, ..w }, fault::outcome(r)) == method_step(
                w,
                plan,
                result,
                ast::argument_tree(fallback),
                ast::argument_trees(arguments@),
            ),
    {
        proof {
            reveal(method_step);
        }
        pending(self.resolve_method(vm, plan, result, fallback, arguments))
    }

    fn turn_binding(
        &mut self,
        vm: &mut Vm,
        fiber: &Fiber,
        natives: &NativeProviders,
        Ghost(w): Ghost<World>,
        target: SymbolKey,
        spec: CallTextSpec,
    ) -> (r: Result<RuntimeFormStep, StepError>)
        requires
            w.vm == old(vm)@,
            w.fiber == fiber@,
            w.form == old(self)@,
            w.form.pending matches Some(p) ==> form_call_text::roots_known(p.graph),
        ensures
            (World { vm: final(vm)@, form: final(self)@, ..w }, fault::outcome(r)) == binding_step(
                w,
                target,
                spec,
            ),
    {
        proof {
            reveal(binding_step);
        }
        pending(self.finish_call_text_arguments(vm, fiber, target, spec))
    }

    fn turn_pump(
        &mut self,
        vm: &Vm,
        fiber: &Fiber,
        natives: &NativeProviders,
        Ghost(w): Ghost<World>,
    ) -> (r: Result<RuntimeFormStep, StepError>)
        requires
            w.vm == vm@,
            w.fiber == fiber@,
            w.form == old(self)@,
            w.form.pending matches Some(p) ==> form_pump::sound(p),
        ensures
            (World { form: final(self)@, ..w }, fault::outcome(r)) == pump_step(w),
    {
        proof {
            reveal(pump_step);
        }
        match self.advance_reference_arguments(vm) {
            Err(e) => Err(e),
            Ok(None) => Ok(RuntimeFormStep::Pending),
            Ok(Some(p)) => Ok(RuntimeFormStep::Request(FormRequest::Predicate(p))),
        }
    }

    #[verifier::rlimit(30)]
    #[verifier::spinoff_prover]
    pub(crate) fn call_turn(
        &mut self,
        vm: &mut Vm,
        fiber: &Fiber,
        natives: &NativeProviders,
        Ghost(w): Ghost<World>,
        task: RuntimeFormTask,
    ) -> (r: Turn)
        requires
            w.vm == old(vm)@,
            w.fiber == fiber@,
            w.form == old(self)@,
            w.form.pending matches Some(p) ==> form_pump::sound(p) && form_call_text::roots_known(
                p.graph,
            ),
        ensures
            turned(
                call_step(w, *natives, task@),
                w,
                task@,
                World { vm: final(vm)@, form: final(self)@, ..w },
                r,
            ),
    {
        let g = Ghost(w);
        let step = match task {
            RuntimeFormTask::Evaluate(e) => self.turn_expression(vm, fiber, natives, g, e),
            RuntimeFormTask::FinishCall { name, arguments } => self.turn_form_call(
                vm,
                fiber,
                natives,
                g,
                name,
                arguments,
            ),
            RuntimeFormTask::FinishNative { bound, source, .. } => self.turn_native(
                vm,
                fiber,
                natives,
                g,
                bound,
                source,
            ),
            RuntimeFormTask::BeginCheckedForm(source) => self.turn_check(
                vm,
                fiber,
                natives,
                g,
                source,
            ),
            RuntimeFormTask::ParseCallText { source, spec } => self.turn_call_text(
                vm,
                fiber,
                natives,
                g,
                source,
                spec,
            ),
            RuntimeFormTask::FinishExpressionProbe(id) => self.turn_probe(
                vm,
                fiber,
                natives,
                g,
                id,
            ),
            RuntimeFormTask::ExistsMethod => self.turn_exists(vm, fiber, natives, g),
            RuntimeFormTask::ResolveMethod { plan, result, fallback, arguments } => {
                self.turn_method(vm, fiber, natives, g, plan, result, fallback, arguments)
            },
            RuntimeFormTask::MethodArgument(call) => Ok(
                RuntimeFormStep::Request(FormRequest::Method(call)),
            ),
            RuntimeFormTask::CaptureMethodArgument(call) => Ok(
                RuntimeFormStep::Request(FormRequest::CaptureArgument(call)),
            ),
            RuntimeFormTask::FinishCallTextArguments { target, spec } => self.turn_binding(
                vm,
                fiber,
                natives,
                g,
                target,
                spec,
            ),
            RuntimeFormTask::FinishCallTextArgumentCatch(_) => Err(
                invalid("CALLSTR argument checkpoint escaped its user-call state"),
            ),
            RuntimeFormTask::ReferenceArgumentsPump => self.turn_pump(vm, fiber, natives, g),
            other => {
                return Err(other);
            },
        };
        Ok(step)
    }
}

impl RuntimeFormContinuation {
    fn turn_input(
        &mut self,
        vm: &mut Vm,
        fiber: &Fiber,
        host_calls: &mut u32,
        Ghost(w): Ghost<World>,
        operation: InputOperation,
        arguments: Vec<VmValue>,
        gate: Option<(Rc<Expr>, bool)>,
    ) -> (r: Result<RuntimeFormStep, StepError>)
        requires
            w.vm == old(vm)@,
            w.fiber == fiber@,
            w.calls == *old(host_calls),
        ensures
            (
                World { vm: final(vm)@, form: final(self)@, calls: *final(host_calls), ..w },
                fault::outcome(r),
            ) == input_stepped(
                w,
                old(self)@,
                operation,
                value::vals(arguments@),
                forms::gate_view(gate),
            ),
    {
        proof {
            reveal(input_stepped);
        }
        match self.call_input_host(vm, fiber, host_calls, operation, arguments, gate) {
            Err(e) => Err(e),
            Ok(ask) => Ok(RuntimeFormStep::Request(FormRequest::Input(ask))),
        }
    }

    fn turn_operands(
        &mut self,
        vm: &mut Vm,
        fiber: &Fiber,
        host_calls: &mut u32,
        Ghost(w): Ghost<World>,
        operation: InputOperation,
        count: usize,
    ) -> (r: Result<RuntimeFormStep, StepError>)
        requires
            w.vm == old(vm)@,
            w.fiber == fiber@,
            w.form == old(self)@,
            w.calls == *old(host_calls),
        ensures
            (
                World { vm: final(vm)@, form: final(self)@, calls: *final(host_calls), ..w },
                fault::outcome(r),
            ) == operands_step(w, operation, count),
    {
        proof {
            reveal(operands_step);
        }
        let arguments = match self.take_values(count) {
            Err(e) => {
                return Err(e);
            },
            Ok(v) => v,
        };
        self.turn_input(vm, fiber, host_calls, Ghost(w), operation, arguments, None)
    }

    fn turn_read(
        &mut self,
        fiber: &mut Fiber,
        Ghost(w): Ghost<World>,
        depth: usize,
        gate: Option<(Rc<Expr>, bool)>,
    ) -> (r: Result<RuntimeFormStep, StepError>)
        requires
            w.fiber == old(fiber)@,
            w.form == old(self)@,
        ensures
            (
                World { fiber: final(fiber)@, form: final(self)@, ..w },
                fault::outcome(r),
            ) == read_step(w, depth, forms::gate_view(gate)),
    {
        proof {
            reveal(read_step);
        }
        pending(self.read_input_host(fiber, depth, gate))
    }

    fn turn_host(&mut self, vm: &Vm, fiber: &mut Fiber, Ghost(w): Ghost<World>, id: u64) -> (r: Result<
        RuntimeFormStep,
        StepError,
    >)
        requires
            w.vm == vm@,
            w.fiber == old(fiber)@,
            w.form == old(self)@,
            w.form.instruction <= u32::MAX,
        ensures
            (
                World { fiber: final(fiber)@, form: final(self)@, ..w },
                fault::outcome(r),
            ) == host_step(w, id),
    {
        proof {
            reveal(host_step);
        }
        match self.advance_host_call(vm, fiber, id) {
            Err(e) => Err(e),
            Ok(HostAdvance::Pending) => Ok(RuntimeFormStep::Pending),
            Ok(HostAdvance::Ask(a)) => Ok(
                RuntimeFormStep::Request(FormRequest::Host(HostAdvance::Ask(a))),
            ),
        }
    }

    #[verifier::rlimit(30)]
    #[verifier::spinoff_prover]
    pub(crate) fn service_turn(
        &mut self,
        vm: &mut Vm,
        fiber: &mut Fiber,
        host_calls: &mut u32,
        Ghost(w): Ghost<World>,
        task: RuntimeFormTask,
    ) -> (r: Turn)
        requires
            w.vm == old(vm)@,
            w.fiber == old(fiber)@,
            w.form == old(self)@,
            w.calls == *old(host_calls),
            w.form.instruction <= u32::MAX,
        ensures
            turned(
                service_step(w, task@),
                w,
                task@,
                World {
                    vm: final(vm)@,
                    fiber: final(fiber)@,
                    form: final(self)@,
                    calls: *final(host_calls),
                },
                r,
            ),
    {
        let g = Ghost(w);
        let step = match task {
            RuntimeFormTask::GateInputHost { key, triggered, .. } => {
                let none: Vec<VmValue> = Vec::new();
                assert(value::vals(none@) =~= Seq::<Val>::empty());
                self.turn_input(
                    vm,
                    fiber,
                    host_calls,
                    g,
                    InputOperation::KeyActive,
                    none,
                    Some((key, triggered)),
                )
            },
            RuntimeFormTask::FinishInputHost { operation, count } => self.turn_operands(
                vm,
                fiber,
                host_calls,
                g,
                operation,
                count,
            ),
            RuntimeFormTask::ReadInputHost { depth, gate } => self.turn_read(
                fiber,
                g,
                depth,
                gate,
            ),
            RuntimeFormTask::HostAdvance(id) => self.turn_host(vm, fiber, g, id),
            RuntimeFormTask::BitCapture { spec, site, source } => Ok(
                RuntimeFormStep::Request(FormRequest::BitCapture { spec, site, source }),
            ),
            RuntimeFormTask::BitFinish(call) => Ok(
                RuntimeFormStep::Request(FormRequest::BitFinish(call)),
            ),
            RuntimeFormTask::MapCapture { bound, site, arguments } => Ok(
                RuntimeFormStep::Request(
                    FormRequest::MapCapture { bound, map_site: site, arguments },
                ),
            ),
            RuntimeFormTask::MapValuesEnabled { call, output } => Ok(
                RuntimeFormStep::Request(FormRequest::MapValues { map: call, output }),
            ),
            RuntimeFormTask::MapFinish(call) => Ok(
                RuntimeFormStep::Request(FormRequest::MapFinish(call)),
            ),
            RuntimeFormTask::Match(stage, call) => Ok(
                RuntimeFormStep::Request(FormRequest::MatchStage(stage, call)),
            ),
            other => {
                return Err(other);
            },
        };
        Ok(step)
    }
}

impl RuntimeFormContinuation {
    fn turn_mutation(
        &mut self,
        vm: &Vm,
        fiber: &Fiber,
        Ghost(w): Ghost<World>,
        variable: SymbolKey,
        indices: usize,
        mode: u8,
    ) -> (r: Result<RuntimeFormStep, StepError>)
        requires
            w.vm == vm@,
            w.fiber == fiber@,
            w.form == old(self)@,
        ensures
            (World { form: final(self)@, ..w }, fault::outcome(r)) == mutate_step(w, variable, indices, mode),
    {
        proof {
            reveal(mutate_step);
        }
        match self.begin_mutation(vm, fiber, variable, indices, mode) {
            Err(e) => Err(e),
            Ok(place) => Ok(RuntimeFormStep::Request(FormRequest::Mutate { place, mode })),
        }
    }

    fn turn_lookup(
        &mut self,
        vm: &Vm,
        fiber: &Fiber,
        Ghost(w): Ghost<World>,
        plan: u64,
        source: Rc<Expr>,
        mode: Option<Rc<Expr>>,
    ) -> (r: Result<RuntimeFormStep, StepError>)
        requires
            w.vm == vm@,
            w.fiber == fiber@,
            w.form == old(self)@,
        ensures
            (World { form: final(self)@, ..w }, fault::outcome(r)) == lookup_step(
                w,
                plan,
                source@,
                ast::argument_tree(mode),
            ),
    {
        proof {
            reveal(lookup_step);
        }
        pending(self.existvar_first(vm, plan, source, mode))
    }

    fn turn_mode(
        &mut self,
        vm: &Vm,
        fiber: &Fiber,
        Ghost(w): Ghost<World>,
        source: Rc<Expr>,
    ) -> (r: Result<RuntimeFormStep, StepError>)
        requires
            w.vm == vm@,
            w.fiber == fiber@,
            w.form == old(self)@,
        ensures
            (World { form: final(self)@, ..w }, fault::outcome(r)) == mode_step(w, source@),
    {
        proof {
            reveal(mode_step);
        }
        pending(self.existvar_mode(vm, fiber, source))
    }

    fn turn_place(
        &mut self,
        vm: &Vm,
        fiber: &Fiber,
        Ghost(w): Ghost<World>,
        key: SymbolKey,
        indices: usize,
    ) -> (r: Result<RuntimeFormStep, StepError>)
        requires
            w.vm == vm@,
            w.fiber == fiber@,
            w.form == old(self)@,
        ensures
            (World { form: final(self)@, ..w }, fault::outcome(r)) == place_step(w, key, indices),
    {
        proof {
            reveal(place_step);
        }
        pending(self.capture_reference_place(vm, fiber, key, indices))
    }

    fn turn_variable(
        &mut self,
        vm: &Vm,
        fiber: &Fiber,
        Ghost(w): Ghost<World>,
        name: String,
        indices: usize,
    ) -> (r: Result<RuntimeFormStep, StepError>)
        requires
            w.vm == vm@,
            w.fiber == fiber@,
            w.form == old(self)@,
        ensures
            (World { form: final(self)@, ..w }, fault::outcome(r)) == variable_step(w, name@, indices),
    {
        proof {
            reveal(variable_step);
        }
        pending(self.push_variable(vm, fiber, Ghost(w), name.as_str(), indices))
    }

    fn turn_right(
        &mut self,
        vm: &Vm,
        fiber: &Fiber,
        Ghost(w): Ghost<World>,
        op: BinaryOp,
        right: Rc<Expr>,
    ) -> (r: Result<RuntimeFormStep, StepError>)
        requires
            w.vm == vm@,
            w.fiber == fiber@,
            w.form == old(self)@,
        ensures
            (World { form: final(self)@, ..w }, fault::outcome(r)) == right_step(w, op, right@),
    {
        proof {
            reveal(right_step);
        }
        pending(self.take_left(op, right))
    }

    fn turn_choice(
        &mut self,
        vm: &Vm,
        fiber: &Fiber,
        Ghost(w): Ghost<World>,
        message: &str,
        yes: RuntimeFormTask,
        no: Option<RuntimeFormTask>,
    ) -> (r: Result<RuntimeFormStep, StepError>)
        requires
            w.vm == vm@,
            w.fiber == fiber@,
            w.form == old(self)@,
        ensures
            (World { form: final(self)@, ..w }, fault::outcome(r)) == choice_step(
                w,
                message@,
                yes@,
                match no {
                    Some(t) => Some(t@),
                    None => None,
                },
            ),
    {
        proof {
            reveal(choice_step);
        }
        pending(self.branch(message, yes, no))
    }

    fn turn_part(
        &mut self,
        vm: &Vm,
        fiber: &Fiber,
        Ghost(w): Ghost<World>,
        p: Rc<FormPart>,
    ) -> (r: Result<RuntimeFormStep, StepError>)
        requires
            w.vm == vm@,
            w.fiber == fiber@,
            w.form == old(self)@,
        ensures
            (World { form: final(self)@, ..w }, fault::outcome(r)) == part_step(w, p@),
    {
        proof {
            reveal(part_step);
        }
        pending(self.render_part(vm, fiber, &p))
    }

    fn turn_interpolation(
        &mut self,
        vm: &Vm,
        fiber: &Fiber,
        Ghost(w): Ghost<World>,
        string: bool,
        width: bool,
        alignment: Option<Alignment>,
    ) -> (r: Result<RuntimeFormStep, StepError>)
        requires
            w.vm == vm@,
            w.fiber == fiber@,
            w.form == old(self)@,
        ensures
            (World { form: final(self)@, ..w }, fault::outcome(r)) == interpolation_step(
                w,
                string,
                width,
                alignment,
            ),
    {
        proof {
            reveal(interpolation_step);
        }
        match self.finish_interpolation(string, width, alignment) {
            Err(e) => Err(e),
            Ok(None) => Ok(RuntimeFormStep::Pending),
            Ok(Some(p)) => Ok(RuntimeFormStep::Request(FormRequest::Pad(p))),
        }
    }

    fn turn_start(
        &mut self,
        vm: &Vm,
        fiber: &Fiber,
        Ghost(w): Ghost<World>,
        f: Rc<FormattedString>,
    ) -> (r: Result<RuntimeFormStep, StepError>)
        requires
            w.vm == vm@,
            w.fiber == fiber@,
            w.form == old(self)@,
        ensures
            (World { form: final(self)@, ..w }, fault::outcome(r)) == start_step(w, f@),
    {
        proof {
            reveal(start_step);
        }
        pending(self.start_form(f))
    }

    fn turn_value(
        &mut self,
        vm: &Vm,
        fiber: &Fiber,
        Ghost(w): Ghost<World>,
    ) -> (r: Result<RuntimeFormStep, StepError>)
        requires
            w.vm == vm@,
            w.fiber == fiber@,
            w.form == old(self)@,
        ensures
            (World { form: final(self)@, ..w }, fault::outcome(r)) == value_step(w),
    {
        proof {
            reveal(value_step);
        }
        pending(self.finish_form_value())
    }

    fn turn_checked(
        &mut self,
        vm: &Vm,
        fiber: &Fiber,
        Ghost(w): Ghost<World>,
        id: u64,
    ) -> (r: Result<RuntimeFormStep, StepError>)
        requires
            w.vm == vm@,
            w.fiber == fiber@,
            w.form == old(self)@,
        ensures
            (World { form: final(self)@, ..w }, fault::outcome(r)) == checked_step(w, id),
    {
        proof {
            reveal(checked_step);
        }
        pending(self.finish_checked_form(id))
    }

    fn turn_restore(
        &mut self,
        vm: &Vm,
        fiber: &Fiber,
        Ghost(w): Ghost<World>,
        previous: Option<u64>,
    ) -> (r: Result<RuntimeFormStep, StepError>)
        requires
            w.vm == vm@,
            w.fiber == fiber@,
            w.form == old(self)@,
        ensures
            (World { form: final(self)@, ..w }, fault::outcome(r)) == restore_step(w, previous),
    {
        proof {
            reveal(restore_step);
        }
        pending(self.restore_call_plan(previous))
    }
}

} // verus!
