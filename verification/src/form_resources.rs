//! What the evaluation of a formatted text holds: slots and bytes of text.

use vstd::prelude::*;
use vstd::arithmetic::overflow::CheckedUsize;
use vstd::string::*;
use vstd::utf8::*;
use std::rc::Rc;
use crate::ast::{
    self, Expr, ExprKind, FormPart, FormTree, FormattedString, PartTree, Tree, TreeKind,
};
use crate::fault::{Failure, StepError, VmFaultCode};
use crate::forms::{
    self, Binding, BoundService, Form, MapCall, MapWorkCall, MatchCall, MatchSource,
    RuntimeFormContinuation, RuntimeFormTask, RuntimeUserCall, Task, UserCall,
    MAX_RUNTIME_FORM_BYTES, MAX_RUNTIME_FORM_NESTING,
};
use crate::program::{MatchInput, RuntimeImport};
use crate::state::{UserArgumentBinding, Vm};
use crate::value::{Val, VmValue};

verus! {

/// Slots and bytes.
pub struct Tally {
    pub slots: nat,
    pub bytes: nat,
}

pub open spec fn tally(slots: nat, bytes: nat) -> Tally {
    Tally { slots, bytes }
}

impl Tally {
    pub open spec fn plus(self, other: Tally) -> Tally {
        Tally { slots: self.slots + other.slots, bytes: self.bytes + other.bytes }
    }

    /// Both counts fit the machine.
    pub open spec fn fits(self) -> bool {
        self.slots <= usize::MAX && self.bytes <= usize::MAX
    }
}

/// The bytes of a text.
pub open spec fn size(s: Seq<char>) -> nat {
    encode_utf8(s).len()
}

/// The bytes of a text.
pub fn byte_count(s: &str) -> (r: usize)
    ensures
        r == size(s@),
{
    s.as_bytes().len()
}

/// A running count of slots and bytes.
pub struct Count {
    slots: CheckedUsize,
    bytes: CheckedUsize,
}

impl View for Count {
    type V = Tally;

    closed spec fn view(&self) -> Tally {
        Tally { slots: self.slots@, bytes: self.bytes@ }
    }
}

impl Count {
    pub fn zero() -> (r: Count)
        ensures
            r@ == tally(0, 0),
    {
        Count { slots: CheckedUsize::new(0), bytes: CheckedUsize::new(0) }
    }

    /// Counts more slots and bytes.
    pub fn more(self, slots: usize, bytes: usize) -> (r: Count)
        ensures
            r@ == self@.plus(tally(slots as nat, bytes as nat)),
    {
        Count { slots: self.slots.add_value(slots), bytes: self.bytes.add_value(bytes) }
    }

    pub fn plus(self, other: Count) -> (r: Count)
        ensures
            r@ == self@.plus(other@),
    {
        Count {
            slots: self.slots.add_checked(&other.slots),
            bytes: self.bytes.add_checked(&other.bytes),
        }
    }

    /// The counts, where they fit.
    pub fn total(&self) -> (r: Option<(usize, usize)>)
        ensures
            match r {
                Some((slots, bytes)) => self@ == tally(slots as nat, bytes as nat),
                None => !self@.fits(),
            },
    {
        match (self.slots.to_option(), self.bytes.to_option()) {
            (Some(s), Some(b)) => Some((s, b)),
            _ => None,
        }
    }
}

/// The counts as a function gives them: nothing where they do not fit.
pub open spec fn counted(r: Option<(usize, usize)>, t: Tally) -> bool {
    match r {
        Some((slots, bytes)) => t == tally(slots as nat, bytes as nat),
        None => !t.fits(),
    }
}

/// What an expression holds: a slot for each node, and its names and texts.
pub open spec fn expr_weight(t: Tree) -> Tally
    decreases t,
{
    tally(1, 0).plus(
        match t.kind {
            TreeKind::Integer(_) => tally(0, 0),
            TreeKind::Error => tally(0, 0),
            TreeKind::Text(s) => tally(0, size(s)),
            TreeKind::Identifier(s) => tally(0, size(s)),
            TreeKind::Variable(name, indices) => tally(0, size(name)).plus(list_weight(indices)),
            TreeKind::Call(name, arguments) => tally(0, size(name)).plus(
                arguments_weight(arguments),
            ),
            TreeKind::Group(x) => expr_weight(*x),
            TreeKind::Unary(_, x) => expr_weight(*x),
            TreeKind::Postfix(_, x) => expr_weight(*x),
            TreeKind::Binary(_, x, y) => expr_weight(*x).plus(expr_weight(*y)),
            TreeKind::Ternary(x, y, z) => expr_weight(*x).plus(expr_weight(*y)).plus(
                expr_weight(*z),
            ),
            TreeKind::Formatted(f) => form_weight(f),
        },
    )
}

pub open spec fn list_weight(s: Seq<Tree>) -> Tally
    decreases s,
{
    if s.len() == 0 {
        tally(0, 0)
    } else {
        list_weight(s.drop_last()).plus(expr_weight(s[s.len() - 1]))
    }
}

pub open spec fn arguments_weight(s: Seq<Option<Tree>>) -> Tally
    decreases s,
{
    if s.len() == 0 {
        tally(0, 0)
    } else {
        arguments_weight(s.drop_last()).plus(
            match s[s.len() - 1] {
                Some(e) => expr_weight(e),
                None => tally(0, 0),
            },
        )
    }
}

/// What a formatted text holds: a slot for itself and each part, and its texts.
pub open spec fn form_weight(f: FormTree) -> Tally
    decreases f,
{
    tally(1, 0).plus(parts_weight(f.parts))
}

pub open spec fn parts_weight(s: Seq<PartTree>) -> Tally
    decreases s,
{
    if s.len() == 0 {
        tally(0, 0)
    } else {
        parts_weight(s.drop_last()).plus(part_weight(s[s.len() - 1]))
    }
}

pub open spec fn part_weight(p: PartTree) -> Tally
    decreases p,
{
    tally(1, 0).plus(
        match p {
            PartTree::Text(s) => tally(0, size(s)),
            PartTree::Triple(_) => tally(0, 0),
            PartTree::Interpolation(_, e, width, _) => expr_weight(*e).plus(
                match width {
                    Some(w) => expr_weight(*w),
                    None => tally(0, 0),
                },
            ),
            PartTree::Conditional(c, then_value, else_value) => expr_weight(*c).plus(
                form_weight(then_value),
            ).plus(
                match else_value {
                    Some(f) => form_weight(f),
                    None => tally(0, 0),
                },
            ),
        },
    )
}

/// What an optional expression holds.
pub open spec fn optional_weight(t: Option<Tree>) -> Tally {
    match t {
        Some(t) => expr_weight(t),
        None => tally(0, 0),
    }
}

pub(crate) fn count_expr(e: &Rc<Expr>) -> (r: Count)
    ensures
        r@ == expr_weight(e@),
    decreases e,
{
    let one = Count::zero().more(1, 0);
    match &e.kind {
        ExprKind::Integer(_) => one,
        ExprKind::Error => one,
        ExprKind::String(s) => one.more(0, byte_count(s.as_str())),
        ExprKind::Identifier(s) => one.more(0, byte_count(s.as_str())),
        ExprKind::Variable { name, indices } => one.more(0, byte_count(name.as_str())).plus(
            count_list(indices),
        ),
        ExprKind::Call { name, args } => one.more(0, byte_count(name.as_str())).plus(
            count_arguments(args),
        ),
        ExprKind::Group(x) => one.plus(count_expr(x)),
        ExprKind::Unary { operand, .. } => one.plus(count_expr(operand)),
        ExprKind::Postfix { operand, .. } => one.plus(count_expr(operand)),
        ExprKind::Binary { left, right, .. } => one.plus(count_expr(left)).plus(count_expr(right)),
        ExprKind::Ternary { condition, then_expr, else_expr } => one.plus(
            count_expr(condition),
        ).plus(count_expr(then_expr)).plus(count_expr(else_expr)),
        ExprKind::Formatted(f) => one.plus(count_form(f)),
    }
}

pub(crate) fn count_list(s: &Vec<Rc<Expr>>) -> (r: Count)
    ensures
        r@ == list_weight(ast::trees(s@)),
    decreases s,
{
    let ghost all = ast::trees(s@);
    proof {
        ast::lemma_trees(s@);
        assert(all.take(0) =~= Seq::<Tree>::empty());
    }
    let mut out = Count::zero();
    let mut i: usize = 0;
    while i < s.len()
        invariant
            i <= s.len(),
            all == ast::trees(s@),
            all.len() == s@.len(),
            forall|j: int| 0 <= j < s@.len() ==> #[trigger] all[j] == ast::tree(*s@[j]),
            out@ == list_weight(all.take(i as int)),
        decreases s.len() - i,
    {
        assert(decreases_to!(*s => s@[i as int]));
        let c = count_expr(&s[i]);
        out = out.plus(c);
        i = i + 1;
        assert(all.take(i as int).drop_last() =~= all.take(i - 1));
        assert(all.take(i as int).last() == all[i - 1]);
    }
    assert(all.take(i as int) =~= all);
    out
}

pub(crate) fn count_arguments(s: &Vec<Option<Rc<Expr>>>) -> (r: Count)
    ensures
        r@ == arguments_weight(ast::argument_trees(s@)),
    decreases s,
{
    let ghost all = ast::argument_trees(s@);
    proof {
        ast::lemma_argument_trees(s@);
        assert(all.take(0) =~= Seq::<Option<Tree>>::empty());
    }
    let mut out = Count::zero();
    let mut i: usize = 0;
    while i < s.len()
        invariant
            i <= s.len(),
            all == ast::argument_trees(s@),
            all.len() == s@.len(),
            forall|j: int| 0 <= j < s@.len() ==> #[trigger] all[j] == ast::argument_tree(s@[j]),
            out@ == arguments_weight(all.take(i as int)),
        decreases s.len() - i,
    {
        assert(decreases_to!(*s => s@[i as int]));
        match &s[i] {
            Some(e) => {
                assert(decreases_to!(*s => s@[i as int]->0));
                let c = count_expr(e);
                out = out.plus(c);
            },
            None => {},
        }
        i = i + 1;
        assert(all.take(i as int).drop_last() =~= all.take(i - 1));
        assert(all.take(i as int).last() == all[i - 1]);
    }
    assert(all.take(i as int) =~= all);
    out
}

pub(crate) fn count_form(f: &Rc<FormattedString>) -> (r: Count)
    ensures
        r@ == form_weight(f@),
    decreases f,
{
    let ghost all = ast::part_trees(f.parts@);
    proof {
        ast::lemma_part_trees(f.parts@);
        assert(all.take(0) =~= Seq::<PartTree>::empty());
    }
    let mut out = Count::zero();
    let mut i: usize = 0;
    while i < f.parts.len()
        invariant
            i <= f.parts.len(),
            all == ast::part_trees(f.parts@),
            all.len() == f.parts@.len(),
            forall|j: int|
                0 <= j < f.parts@.len() ==> #[trigger] all[j] == ast::part_tree(*f.parts@[j]),
            out@ == parts_weight(all.take(i as int)),
        decreases f.parts.len() - i,
    {
        assert(decreases_to!(*f => f.parts@[i as int]));
        let c = count_part(&f.parts[i]);
        out = out.plus(c);
        i = i + 1;
        assert(all.take(i as int).drop_last() =~= all.take(i - 1));
        assert(all.take(i as int).last() == all[i - 1]);
    }
    assert(all.take(i as int) =~= all);
    Count::zero().more(1, 0).plus(out)
}

fn count_part(p: &Rc<FormPart>) -> (r: Count)
    ensures
        r@ == part_weight(p@),
    decreases p,
{
    let one = Count::zero().more(1, 0);
    match &**p {
        FormPart::Text(s) => one.more(0, byte_count(s.as_str())),
        FormPart::Triple(_) => one,
        FormPart::Interpolation { expression, width, .. } => {
            let c = one.plus(count_expr(expression));
            match width {
                Some(w) => c.plus(count_expr(w)),
                None => c,
            }
        },
        FormPart::Conditional { condition, then_value, else_value } => {
            let c = one.plus(count_expr(condition)).plus(count_form(then_value));
            match else_value {
                Some(f) => c.plus(count_form(f)),
                None => c,
            }
        },
    }
}

pub(crate) fn count_optional(e: &Option<Rc<Expr>>) -> (r: Count)
    ensures
        r@ == optional_weight(ast::argument_tree(*e)),
{
    match e {
        Some(e) => count_expr(e),
        None => Count::zero(),
    }
}

/// What expressions hold.
pub fn retained_expression_resources(expressions: &Vec<Option<Rc<Expr>>>) -> (r: Option<
    (usize, usize),
>)
    ensures
        counted(r, arguments_weight(ast::argument_trees(expressions@))),
{
    count_arguments(expressions).total()
}

/// The bytes of a text value.
pub open spec fn val_bytes(v: Val) -> nat {
    match v {
        Val::Text(s) => size(s),
        _ => 0,
    }
}

pub(crate) fn value_bytes(v: &VmValue) -> (r: usize)
    ensures
        r == val_bytes(v@),
{
    match v {
        VmValue::String(s) => byte_count(s.as_str()),
        _ => 0,
    }
}

/// The bytes of the text values among captured arguments.
pub open spec fn captured_bytes(s: Seq<Option<Val>>) -> nat
    decreases s.len(),
{
    if s.len() == 0 {
        0
    } else {
        captured_bytes(s.drop_last()) + match s.last() {
            Some(v) => val_bytes(v),
            None => 0,
        }
    }
}

/// The bytes of the default texts among bindings.
pub open spec fn default_bytes(s: Seq<Binding>) -> nat
    decreases s.len(),
{
    if s.len() == 0 {
        0
    } else {
        default_bytes(s.drop_last()) + match s.last() {
            Binding::Default(Some(v)) => val_bytes(v),
            _ => 0,
        }
    }
}

/// What a user call holds.
pub open spec fn user_call_weight(c: UserCall) -> Tally {
    tally(
        c.specs.len() + c.captured.len() + c.arguments.len() + c.call.bindings.len(),
        captured_bytes(c.captured) + default_bytes(c.call.bindings),
    ).plus(arguments_weight(c.arguments))
}

fn count_user_call(c: &RuntimeUserCall) -> (r: Count)
    ensures
        r@ == user_call_weight(c@),
{
    proof {
        ast::lemma_argument_trees(c.arguments@);
    }
    let ghost captured = c@.captured;
    let ghost bindings = c@.call.bindings;
    let mut out = Count::zero().more(c.specs.len(), 0).more(c.captured.len(), 0).more(
        c.arguments.len(),
        0,
    ).more(c.call.bindings.len(), 0);
    let ghost slots = out@.slots;
    let mut i: usize = 0;
    assert(captured.take(0) =~= Seq::<Option<Val>>::empty());
    while i < c.captured.len()
        invariant
            i <= c.captured.len(),
            captured == c@.captured,
            out@ == tally(slots, captured_bytes(captured.take(i as int))),
        decreases c.captured.len() - i,
    {
        match &c.captured[i] {
            Some(v) => {
                out = out.more(0, value_bytes(v));
            },
            None => {},
        }
        i = i + 1;
        assert(captured.take(i as int).drop_last() =~= captured.take(i - 1));
        assert(captured.take(i as int).last() == captured[i - 1]);
    }
    assert(captured.take(i as int) =~= captured);
    let mut i: usize = 0;
    assert(bindings.take(0) =~= Seq::<Binding>::empty());
    while i < c.call.bindings.len()
        invariant
            i <= c.call.bindings.len(),
            bindings == c@.call.bindings,
            out@ == tally(slots, captured_bytes(captured) + default_bytes(bindings.take(i as int))),
        decreases c.call.bindings.len() - i,
    {
        match &c.call.bindings[i] {
            UserArgumentBinding::Default(Some(v)) => {
                out = out.more(0, value_bytes(v));
            },
            _ => {},
        }
        i = i + 1;
        assert(bindings.take(i as int).drop_last() =~= bindings.take(i - 1));
        assert(bindings.take(i as int).last() == c.call.bindings@[i - 1]@);
    }
    assert(bindings.take(i as int) =~= bindings);
    out.plus(count_arguments(&c.arguments))
}

/// What a bound call holds: its parameters and omitted arguments, and its names.
pub open spec fn service_weight(b: BoundService) -> Tally {
    tally(
        b.import.parameters.len() + b.omitted.len(),
        size(b.import.name) + size(b.import.namespace),
    )
}

pub(crate) fn count_service(import: &RuntimeImport, omitted: &Vec<u16>) -> (r: Count)
    ensures
        r@ == tally(
            import@.parameters.len() + omitted@.len(),
            size(import@.name) + size(import@.namespace),
        ),
{
    Count::zero().more(import.parameters.len(), byte_count(import.name.as_str())).more(
        omitted.len(),
        byte_count(import.namespace.as_str()),
    )
}

/// What a map call holds.
pub open spec fn map_weight(c: MapCall) -> Tally {
    tally(
        1 + c.source.len() + c.bound.import.parameters.len(),
        size(c.name) + size(c.bound.import.name) + size(c.bound.import.namespace),
    ).plus(arguments_weight(c.source))
}

fn count_map(c: &MapWorkCall) -> (r: Count)
    ensures
        r@ == map_weight(c@),
{
    proof {
        ast::lemma_argument_trees(c.source@);
    }
    let import = &c.bound.import;
    Count::zero().more(1, byte_count(c.name.as_str())).more(
        c.source.len(),
        byte_count(import.name.as_str()),
    ).more(import.parameters.len(), byte_count(import.namespace.as_str())).plus(
        count_arguments(&c.source),
    )
}

/// What a MATCH call holds.
pub open spec fn match_weight(c: MatchCall) -> Tally {
    tally(
        12 + c.arguments.len(),
        (match c.spec.input {
            MatchSource::Name(n) => size(n),
            _ => 0,
        }) + (match c.state.needle {
            Some(v) => val_bytes(v),
            None => 0,
        }),
    ).plus(arguments_weight(c.arguments))
}

/// What a step that is still to be done holds, itself aside.
pub open spec fn task_weight(t: Task) -> Tally {
    match t {
        Task::GateInputHost(_, key, _) => expr_weight(key),
        Task::ReadInputHost(_, gate) => match gate {
            Some((key, _)) => expr_weight(key),
            None => tally(0, 0),
        },
        Task::FinishInputHost(_, count) => tally(count as nat, 0),
        Task::MapCapture(bound, _, arguments) => service_weight(bound).plus(
            tally(arguments.len(), 0),
        ).plus(arguments_weight(arguments)),
        Task::MapValuesEnabled(call, output) => map_weight(call).plus(optional_weight(output)),
        Task::MapFinish(call) => map_weight(call),
        Task::BitCapture(_, _, source) => tally(source.len(), 0).plus(arguments_weight(source)),
        Task::BitFinish(call) => tally(1 + call.source.len(), 0).plus(
            arguments_weight(call.source),
        ),
        Task::Match(_, call) => match_weight(call),
        Task::FinishNative(_, bound, source) => service_weight(bound).plus(
            tally(source.len(), 0),
        ).plus(arguments_weight(source)),
        Task::ExistVarFirst(_, source, mode) => expr_weight(source).plus(optional_weight(mode)),
        Task::ExistVarMode(_, source) => expr_weight(source),
        Task::MethodArgument(call) => user_call_weight(call),
        Task::CaptureMethodArgument(call) => user_call_weight(call),
        Task::ResolveMethod(_, _, fallback, arguments) => tally(arguments.len(), 0).plus(
            arguments_weight(arguments),
        ).plus(optional_weight(fallback)),
        Task::BeginCheckedForm(source) => tally(0, size(source)),
        Task::ParseCallText(source, _) => tally(0, size(source)),
        _ => tally(0, 0),
    }
}

fn count_task(t: &RuntimeFormTask) -> (r: Count)
    ensures
        r@ == task_weight(t@),
{
    match t {
        RuntimeFormTask::GateInputHost { key, .. } => count_expr(key),
        RuntimeFormTask::ReadInputHost { gate, .. } => match gate {
            Some((key, _)) => count_expr(key),
            None => Count::zero(),
        },
        RuntimeFormTask::FinishInputHost { count, .. } => Count::zero().more(*count, 0),
        RuntimeFormTask::MapCapture { bound, arguments, .. } => {
            proof {
                ast::lemma_argument_trees(arguments@);
            }
            count_service(&bound.import, &bound.omitted_arguments).more(arguments.len(), 0).plus(
                count_arguments(arguments),
            )
        },
        RuntimeFormTask::MapValuesEnabled { call, output } => count_map(call).plus(
            count_optional(output),
        ),
        RuntimeFormTask::MapFinish(call) => count_map(call),
        RuntimeFormTask::BitCapture { source, .. } => {
            proof {
                ast::lemma_argument_trees(source@);
            }
            Count::zero().more(source.len(), 0).plus(count_arguments(source))
        },
        RuntimeFormTask::BitFinish(call) => {
            proof {
                ast::lemma_argument_trees(call.source@);
            }
            Count::zero().more(1, 0).more(call.source.len(), 0).plus(count_arguments(&call.source))
        },
        RuntimeFormTask::Match(_, call) => {
            proof {
                ast::lemma_argument_trees(call.arguments@);
            }
            let mut out = Count::zero().more(12, 0).more(call.arguments.len(), 0);
            match &call.spec.input {
                MatchInput::Name(n) => {
                    out = out.more(0, byte_count(n.as_str()));
                },
                _ => {},
            }
            match &call.state.needle {
                Some(v) => {
                    out = out.more(0, value_bytes(v));
                },
                None => {},
            }
            out.plus(count_arguments(&call.arguments))
        },
        RuntimeFormTask::FinishNative { bound, source, .. } => {
            proof {
                ast::lemma_argument_trees(source@);
            }
            count_service(&bound.import, &bound.omitted_arguments).more(source.len(), 0).plus(
                count_arguments(source),
            )
        },
        RuntimeFormTask::ExistVarFirst { source, mode, .. } => count_expr(source).plus(
            count_optional(mode),
        ),
        RuntimeFormTask::ExistVarMode { source, .. } => count_expr(source),
        RuntimeFormTask::MethodArgument(call) => count_user_call(call),
        RuntimeFormTask::CaptureMethodArgument(call) => count_user_call(call),
        RuntimeFormTask::ResolveMethod { fallback, arguments, .. } => {
            proof {
                ast::lemma_argument_trees(arguments@);
            }
            Count::zero().more(arguments.len(), 0).plus(count_arguments(arguments)).plus(
                count_optional(fallback),
            )
        },
        RuntimeFormTask::BeginCheckedForm(source) => Count::zero().more(
            0,
            byte_count(source.as_str()),
        ),
        RuntimeFormTask::ParseCallText { source, .. } => Count::zero().more(
            0,
            byte_count(source.as_str()),
        ),
        _ => Count::zero(),
    }
}

pub open spec fn work_weight(work: Seq<Task>) -> Tally
    decreases work.len(),
{
    if work.len() == 0 {
        tally(0, 0)
    } else {
        work_weight(work.drop_last()).plus(task_weight(work.last()))
    }
}

/// What the steps to be done and the started call hold.
pub open spec fn method_weight(form: Form) -> Tally {
    work_weight(form.work).plus(
        match form.awaiting {
            Some(wait) => user_call_weight(wait.call),
            None => tally(0, 0),
        },
    )
}

/// The bytes of the outputs.
pub open spec fn output_bytes(outputs: Seq<Seq<char>>) -> nat
    decreases outputs.len(),
{
    if outputs.len() == 0 {
        0
    } else {
        output_bytes(outputs.drop_last()) + size(outputs.last())
    }
}

/// The bytes of the text values on a stack.
pub open spec fn stack_bytes(values: Seq<Val>) -> nat
    decreases values.len(),
{
    if values.len() == 0 {
        0
    } else {
        stack_bytes(values.drop_last()) + val_bytes(values.last())
    }
}

pub open spec fn resource_failure(message: Seq<char>) -> Failure {
    Failure::of(VmFaultCode::ResourceLimit, message)
}

/// A limit that was reached.
pub fn resource_limit(message: &str) -> (r: StepError)
    ensures
        r@ == resource_failure(message@),
{
    StepError::new(VmFaultCode::ResourceLimit, message)
}

/// The bytes of text that an evaluation holds.
pub open spec fn retained(form: Form) -> Result<usize, Failure> {
    if !method_weight(form).fits() {
        Err(resource_failure("STRFORM method resource count overflowed"@))
    } else {
        let total = method_weight(form).bytes + output_bytes(form.outputs) + stack_bytes(
            form.values,
        );
        if total <= usize::MAX {
            Ok(total as usize)
        } else {
            Err(resource_failure("STRFORM retained string size overflowed"@))
        }
    }
}

/// Whether an evaluation stays within the limits of the machine.
pub open spec fn checked(form: Form, maximum: usize) -> Result<(), Failure> {
    if !method_weight(form).fits() {
        Err(resource_failure("STRFORM method resource count overflowed"@))
    } else if form.work.len() + method_weight(form).slots > maximum || form.values.len() > maximum
        || form.outputs.len() > MAX_RUNTIME_FORM_NESTING {
        Err(resource_failure("STRFORM continuation exceeds VM limits"@))
    } else {
        match retained(form) {
            Err(e) => Err(e),
            Ok(bytes) => if bytes > MAX_RUNTIME_FORM_BYTES {
                Err(resource_failure("STRFORM retained strings exceed the runtime limit"@))
            } else {
                Ok(())
            },
        }
    }
}

/// What appending a text to the innermost output leaves.
pub open spec fn appended(form: Form, text: Seq<char>) -> (Form, Result<(), Failure>) {
    match retained(form) {
        Err(e) => (form, Err(e)),
        Ok(bytes) => if bytes + size(text) > MAX_RUNTIME_FORM_BYTES {
            (form, Err(resource_failure("STRFORM output exceeds the runtime limit"@)))
        } else if form.outputs.len() == 0 {
            (form, Err(Failure::invalid("STRFORM output stack is empty"@)))
        } else {
            (
                Form {
                    outputs: form.outputs.update(
                        form.outputs.len() - 1,
                        form.outputs.last() + text,
                    ),
                    ..form
                },
                Ok(()),
            )
        },
    }
}

pub open spec fn byte_result(r: Result<usize, StepError>) -> Result<usize, Failure> {
    match r {
        Ok(n) => Ok(n),
        Err(e) => Err(e@),
    }
}

pub open spec fn unit_result(r: Result<(), StepError>) -> Result<(), Failure> {
    match r {
        Ok(_) => Ok(()),
        Err(e) => Err(e@),
    }
}

impl RuntimeFormContinuation {
    /// What the steps to be done and the started call hold.
    pub fn method_resources(&self) -> (r: Option<(usize, usize)>)
        ensures
            counted(r, method_weight(self@)),
    {
        let ghost work = self@.work;
        let mut out = Count::zero();
        let mut i: usize = 0;
        assert(work.take(0) =~= Seq::<Task>::empty());
        while i < self.work.len()
            invariant
                i <= self.work.len(),
                work == self@.work,
                out@ == work_weight(work.take(i as int)),
            decreases self.work.len() - i,
        {
            let c = count_task(&self.work[i]);
            out = out.plus(c);
            i = i + 1;
            assert(work.take(i as int).drop_last() =~= work.take(i - 1));
            assert(work.take(i as int).last() == self.work@[i - 1]@);
        }
        assert(work.take(i as int) =~= work);
        match &self.awaiting_user_call {
            Some(wait) => {
                out = out.plus(count_user_call(&wait.call));
            },
            None => {},
        }
        out.total()
    }

    /// The bytes of text that this evaluation holds.
    pub fn retained_string_bytes(&self) -> (r: Result<usize, StepError>)
        ensures
            byte_result(r) == retained(self@),
    {
        let (slots, bytes) = match self.method_resources() {
            Some(p) => p,
            None => {
                return Err(resource_limit("STRFORM method resource count overflowed"));
            },
        };
        let ghost outputs = self@.outputs;
        let ghost values = self@.values;
        let mut total = CheckedUsize::new(bytes);
        let mut i: usize = 0;
        assert(outputs.take(0) =~= Seq::<Seq<char>>::empty());
        while i < self.outputs.len()
            invariant
                i <= self.outputs.len(),
                outputs == self@.outputs,
                total@ == bytes + output_bytes(outputs.take(i as int)),
            decreases self.outputs.len() - i,
        {
            total = total.add_value(byte_count(self.outputs[i].as_str()));
            i = i + 1;
            assert(outputs.take(i as int).drop_last() =~= outputs.take(i - 1));
            assert(outputs.take(i as int).last() == self.outputs@[i - 1]@);
        }
        assert(outputs.take(i as int) =~= outputs);
        let mut i: usize = 0;
        assert(values.take(0) =~= Seq::<Val>::empty());
        while i < self.values.len()
            invariant
                i <= self.values.len(),
                values == self@.values,
                total@ == bytes + output_bytes(outputs) + stack_bytes(values.take(i as int)),
            decreases self.values.len() - i,
        {
            total = total.add_value(value_bytes(&self.values[i]));
            i = i + 1;
            assert(values.take(i as int).drop_last() =~= values.take(i - 1));
            assert(values.take(i as int).last() == self.values@[i - 1]@);
        }
        assert(values.take(i as int) =~= values);
        match total.to_option() {
            Some(n) => Ok(n),
            None => Err(resource_limit("STRFORM retained string size overflowed")),
        }
    }

    /// Tells whether this evaluation stays within the limits of the machine.
    pub fn check_resources(&self, vm: &Vm) -> (r: Result<(), StepError>)
        ensures
            unit_result(r) == checked(self@, vm@.config.maximum_operand_stack),
    {
        let (slots, bytes) = match self.method_resources() {
            Some(p) => p,
            None => {
                return Err(resource_limit("STRFORM method resource count overflowed"));
            },
        };
        assert(self@.work.len() == self.work@.len());
        assert(self@.values.len() == self.values@.len());
        assert(self@.outputs.len() == self.outputs@.len());
        let busy = match self.work.len().checked_add(slots) {
            Some(n) => n > vm.config.maximum_operand_stack,
            None => true,
        };
        if busy || self.values.len() > vm.config.maximum_operand_stack || self.outputs.len()
            > MAX_RUNTIME_FORM_NESTING {
            return Err(resource_limit("STRFORM continuation exceeds VM limits"));
        }
        match self.retained_string_bytes() {
            Err(e) => Err(e),
            Ok(n) => if n > MAX_RUNTIME_FORM_BYTES {
                Err(resource_limit("STRFORM retained strings exceed the runtime limit"))
            } else {
                Ok(())
            },
        }
    }

    /// Appends a text to the innermost output.
    pub fn append_output(&mut self, text: &str) -> (r: Result<(), StepError>)
        ensures
            (final(self)@, unit_result(r)) == appended(old(self)@, text@),
    {
        let bytes: usize = match self.retained_string_bytes() {
            Err(e) => {
                return Err(e);
            },
            Ok(n) => n,
        };
        let over = match bytes.checked_add(byte_count(text)) {
            Some(n) => n > MAX_RUNTIME_FORM_BYTES,
            None => true,
        };
        if over {
            return Err(resource_limit("STRFORM output exceeds the runtime limit"));
        }
        let ghost outputs = self@.outputs;
        assert(outputs.len() == self.outputs@.len());
        match self.outputs.pop() {
            None => Err(StepError::new(
                VmFaultCode::InvalidInstruction,
                "STRFORM output stack is empty",
            )),
            Some(last) => {
                let mut last = last;
                last.append(text);
                self.outputs.push(last);
                assert(forms::output_views(self.outputs@) =~= outputs.update(
                    outputs.len() - 1,
                    outputs.last() + text@,
                ));
                Ok(())
            },
        }
    }
}

} // verus!
