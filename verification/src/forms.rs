//! The state of a formatted text whose evaluation can be suspended.

use vstd::prelude::*;
use std::rc::Rc;
use crate::ast::{
    self, Alignment, BinaryOp, Expr, FormPart, FormTree, FormattedString, PartTree, Span, Tree,
    UnaryOp,
};
use crate::program::{
    BitCallSpec, BoundRuntimeHost, BoundRuntimeNative, CallTextSpec, MatchCallSpec, MatchInput,
    RuntimeHostStage, RuntimeImport, UserArgumentSpec, UserCallMode,
};
use crate::state::{self, BitWork, ResolvedUserCall, UserArgumentBinding};
use crate::terms::{Graph, Literal, ReferenceTermGraph, ReferenceTermValue};
use crate::text;
use crate::value::{
    self, ArrayLeaseId, BytecodeType, FiberId, FrameId, GenerationId, SymbolKey, Val, VmValue,
};

verus! {

/// The most bytes of text that one evaluation may hold.
pub const MAX_RUNTIME_FORM_BYTES: usize = 1048576;

/// The deepest nesting of one evaluation.
pub const MAX_RUNTIME_FORM_NESTING: usize = 256;

/// Mathematical content of a [`RuntimeImport`].
#[verifier::ext_equal]
pub struct ImportModel {
    pub key: SymbolKey,
    pub namespace: Seq<char>,
    pub name: Seq<char>,
    pub parameters: Seq<BytecodeType>,
    pub result: Option<BytecodeType>,
}

impl View for RuntimeImport {
    type V = ImportModel;

    open spec fn view(&self) -> ImportModel {
        ImportModel {
            key: self.key,
            namespace: self.namespace@,
            name: self.name@,
            parameters: self.parameters@,
            result: self.result,
        }
    }
}

/// Compares two lists of types.
pub fn same_types(a: &Vec<BytecodeType>, b: &Vec<BytecodeType>) -> (r: bool)
    ensures
        r == (a@ == b@),
{
    if a.len() != b.len() {
        return false;
    }
    let mut i: usize = 0;
    while i < a.len()
        invariant
            i <= a.len(),
            a.len() == b.len(),
            forall|j: int| 0 <= j < i ==> a@[j] == b@[j],
        decreases a.len() - i,
    {
        if a[i] != b[i] {
            assert(a@[i as int] != b@[i as int]);
            return false;
        }
        i = i + 1;
    }
    assert(a@ =~= b@);
    true
}

/// Compares two lists of positions.
pub fn same_positions(a: &Vec<u16>, b: &Vec<u16>) -> (r: bool)
    ensures
        r == (a@ == b@),
{
    if a.len() != b.len() {
        return false;
    }
    let mut i: usize = 0;
    while i < a.len()
        invariant
            i <= a.len(),
            a.len() == b.len(),
            forall|j: int| 0 <= j < i ==> a@[j] == b@[j],
        decreases a.len() - i,
    {
        if a[i] != b[i] {
            assert(a@[i as int] != b@[i as int]);
            return false;
        }
        i = i + 1;
    }
    assert(a@ =~= b@);
    true
}

/// Compares two imports.
pub fn same_import(a: &RuntimeImport, b: &RuntimeImport) -> (r: bool)
    ensures
        r == (a@ == b@),
{
    a.key == b.key && a.result == b.result && text::same_text(a.name.as_str(), b.name.as_str())
        && text::same_text(a.namespace.as_str(), b.namespace.as_str()) && same_types(
        &a.parameters,
        &b.parameters,
    )
}

/// Mathematical content of a bound call: its family, its service and the omitted arguments.
#[verifier::ext_equal]
pub struct BoundService {
    pub key: SymbolKey,
    pub import: ImportModel,
    pub omitted: Seq<u16>,
}

impl View for BoundRuntimeNative {
    type V = BoundService;

    open spec fn view(&self) -> BoundService {
        BoundService {
            key: self.service_key,
            import: self.import@,
            omitted: self.omitted_arguments@,
        }
    }
}

impl View for BoundRuntimeHost {
    type V = BoundService;

    open spec fn view(&self) -> BoundService {
        BoundService {
            key: self.family_key,
            import: self.import@,
            omitted: self.omitted_arguments@,
        }
    }
}

/// Compares two bound service calls.
pub fn same_native(a: &BoundRuntimeNative, b: &BoundRuntimeNative) -> (r: bool)
    ensures
        r == (a@ == b@),
{
    a.service_key == b.service_key && same_import(&a.import, &b.import) && same_positions(
        &a.omitted_arguments,
        &b.omitted_arguments,
    )
}

/// Compares two bound host calls.
pub fn same_host(a: &BoundRuntimeHost, b: &BoundRuntimeHost) -> (r: bool)
    ensures
        r == (a@ == b@),
{
    a.family_key == b.family_key && same_import(&a.import, &b.import) && same_positions(
        &a.omitted_arguments,
        &b.omitted_arguments,
    )
}

/// Where MATCH searches.
pub enum MatchSource {
    Variable(SymbolKey),
    Name(Seq<char>),
}

/// Mathematical content of a [`MatchCallSpec`].
pub struct MatchSpecModel {
    pub input: MatchSource,
    pub output: Option<SymbolKey>,
    pub needle: BytecodeType,
    pub begin_type: BytecodeType,
    pub end_type: Option<BytecodeType>,
}

impl View for MatchCallSpec {
    type V = MatchSpecModel;

    open spec fn view(&self) -> MatchSpecModel {
        MatchSpecModel {
            input: match self.input {
                MatchInput::Variable(k) => MatchSource::Variable(k),
                MatchInput::Name(n) => MatchSource::Name(n@),
            },
            output: self.output,
            needle: self.needle,
            begin_type: self.begin_type,
            end_type: self.end_type,
        }
    }
}

/// Compares the operands of two MATCH calls.
pub fn same_match(a: &MatchCallSpec, b: &MatchCallSpec) -> (r: bool)
    ensures
        r == (a@ == b@),
{
    let inputs = match (&a.input, &b.input) {
        (MatchInput::Variable(x), MatchInput::Variable(y)) => *x == *y,
        (MatchInput::Name(x), MatchInput::Name(y)) => text::same_text(x.as_str(), y.as_str()),
        _ => false,
    };
    inputs && a.output == b.output && a.needle == b.needle && a.begin_type == b.begin_type
        && a.end_type == b.end_type
}

/// A call in the source of a plan.
#[derive(Clone, Copy, PartialEq, Eq, Debug, Structural)]
pub struct RuntimeCallSite {
    pub plan: u64,
    pub span: Span,
}

/// What a call in a source was bound to.
#[derive(PartialEq, Eq, Debug)]
pub enum RuntimeBoundCall {
    Native(Rc<BoundRuntimeNative>),
    Host(Rc<BoundRuntimeHost>),
    Bit(BitCallSpec),
    Match(Rc<MatchCallSpec>),
}

/// Mathematical content of a [`RuntimeBoundCall`].
pub enum BoundCall {
    Native(BoundService),
    Host(BoundService),
    Bit(BitCallSpec),
    Match(MatchSpecModel),
}

impl View for RuntimeBoundCall {
    type V = BoundCall;

    open spec fn view(&self) -> BoundCall {
        match self {
            RuntimeBoundCall::Native(b) => BoundCall::Native(b@),
            RuntimeBoundCall::Host(b) => BoundCall::Host(b@),
            RuntimeBoundCall::Bit(s) => BoundCall::Bit(*s),
            RuntimeBoundCall::Match(s) => BoundCall::Match(s@),
        }
    }
}

impl Clone for RuntimeBoundCall {
    fn clone(&self) -> (r: RuntimeBoundCall)
        ensures
            r@ == self@,
    {
        match self {
            RuntimeBoundCall::Native(b) => RuntimeBoundCall::Native(b.clone()),
            RuntimeBoundCall::Host(b) => RuntimeBoundCall::Host(b.clone()),
            RuntimeBoundCall::Bit(s) => RuntimeBoundCall::Bit(*s),
            RuntimeBoundCall::Match(s) => RuntimeBoundCall::Match(s.clone()),
        }
    }
}

/// Compares two bound calls.
pub fn same_bound(a: &RuntimeBoundCall, b: &RuntimeBoundCall) -> (r: bool)
    ensures
        r == (a@ == b@),
{
    match (a, b) {
        (RuntimeBoundCall::Native(x), RuntimeBoundCall::Native(y)) => same_native(x, y),
        (RuntimeBoundCall::Host(x), RuntimeBoundCall::Host(y)) => same_host(x, y),
        (RuntimeBoundCall::Bit(x), RuntimeBoundCall::Bit(y)) => *x == *y,
        (RuntimeBoundCall::Match(x), RuntimeBoundCall::Match(y)) => same_match(x, y),
        _ => false,
    }
}

/// The source that a plan was made for.
#[derive(PartialEq, Eq, Debug)]
pub enum RuntimePlanSource {
    Form(Rc<FormattedString>),
    Arguments(Vec<Option<Rc<Expr>>>),
}

/// Mathematical content of a [`RuntimePlanSource`].
pub enum Source {
    Form(FormTree),
    Arguments(Seq<Option<Tree>>),
}

impl View for RuntimePlanSource {
    type V = Source;

    open spec fn view(&self) -> Source {
        match self {
            RuntimePlanSource::Form(f) => Source::Form(f@),
            RuntimePlanSource::Arguments(a) => Source::Arguments(ast::argument_trees(a@)),
        }
    }
}

/// The types and the bound calls of one source.
#[derive(PartialEq, Eq, Debug)]
pub struct RuntimeCallPlan {
    pub id: u64,
    pub source: RuntimePlanSource,
    pub types: Vec<(Span, BytecodeType)>,
    pub calls: Vec<(Span, RuntimeBoundCall)>,
    pub nodes: usize,
}

/// Mathematical content of a [`RuntimeCallPlan`].
#[verifier::ext_equal]
pub struct Plan {
    pub id: u64,
    pub source: Source,
    pub types: Seq<(Span, BytecodeType)>,
    pub calls: Seq<(Span, BoundCall)>,
    pub nodes: usize,
}

pub open spec fn call_views(s: Seq<(Span, RuntimeBoundCall)>) -> Seq<(Span, BoundCall)> {
    s.map_values(|c: (Span, RuntimeBoundCall)| (c.0, c.1@))
}

impl View for RuntimeCallPlan {
    type V = Plan;

    open spec fn view(&self) -> Plan {
        Plan {
            id: self.id,
            source: self.source@,
            types: self.types@,
            calls: call_views(self.calls@),
            nodes: self.nodes,
        }
    }
}

/// How one formal parameter gets its value.
pub enum Binding {
    Value(BytecodeType),
    ArrayReference,
    Default(Option<Val>),
}

impl View for UserArgumentBinding {
    type V = Binding;

    open spec fn view(&self) -> Binding {
        match self {
            UserArgumentBinding::Value(t) => Binding::Value(*t),
            UserArgumentBinding::ArrayReference => Binding::ArrayReference,
            UserArgumentBinding::Default(v) => Binding::Default(
                match v {
                    Some(v) => Some(v@),
                    None => None,
                },
            ),
        }
    }
}

pub open spec fn binding_views(s: Seq<UserArgumentBinding>) -> Seq<Binding> {
    s.map_values(|b: UserArgumentBinding| b@)
}

/// Mathematical content of a [`ResolvedUserCall`].
#[verifier::ext_equal]
pub struct Resolved {
    pub generation: GenerationId,
    pub function: SymbolKey,
    pub mode: UserCallMode,
    pub bindings: Seq<Binding>,
}

impl View for ResolvedUserCall {
    type V = Resolved;

    open spec fn view(&self) -> Resolved {
        Resolved {
            generation: self.generation,
            function: self.function,
            mode: self.mode,
            bindings: binding_views(self.bindings@),
        }
    }
}

fn same_binding(a: &UserArgumentBinding, b: &UserArgumentBinding) -> (r: bool)
    ensures
        r == (a@ == b@),
{
    match (a, b) {
        (UserArgumentBinding::Value(x), UserArgumentBinding::Value(y)) => *x == *y,
        (UserArgumentBinding::ArrayReference, UserArgumentBinding::ArrayReference) => true,
        (UserArgumentBinding::Default(x), UserArgumentBinding::Default(y)) => match (x, y) {
            (Some(x), Some(y)) => value::same_value(x, y),
            (None, None) => true,
            _ => false,
        },
        _ => false,
    }
}

/// Compares two resolved calls.
pub fn same_resolved(a: &ResolvedUserCall, b: &ResolvedUserCall) -> (r: bool)
    ensures
        r == (a@ == b@),
{
    if a.generation != b.generation || a.function != b.function || a.mode != b.mode
        || a.bindings.len() != b.bindings.len() {
        assert(a@.bindings.len() == a.bindings@.len());
        assert(b@.bindings.len() == b.bindings@.len());
        return false;
    }
    let mut i: usize = 0;
    while i < a.bindings.len()
        invariant
            i <= a.bindings.len(),
            a.bindings@.len() == b.bindings@.len(),
            forall|j: int| 0 <= j < i ==> (#[trigger] a.bindings@[j])@ == b.bindings@[j]@,
        decreases a.bindings.len() - i,
    {
        if !same_binding(&a.bindings[i], &b.bindings[i]) {
            assert(a@.bindings[i as int] != b@.bindings[i as int]);
            return false;
        }
        i = i + 1;
    }
    assert(a@.bindings =~= b@.bindings);
    true
}

/// A user call of a formatted text whose arguments are being evaluated.
#[derive(PartialEq, Eq, Debug)]
pub struct RuntimeUserCall {
    pub reference_bindings: bool,
    pub reference_scope: u64,
    pub plan: u64,
    pub call: Rc<ResolvedUserCall>,
    pub specs: Vec<UserArgumentSpec>,
    pub arguments: Vec<Option<Rc<Expr>>>,
    pub captured: Vec<Option<VmValue>>,
    pub next_slot: usize,
    pub argument_checkpoint: Option<u64>,
}

/// Mathematical content of a [`RuntimeUserCall`].
#[verifier::ext_equal]
pub struct UserCall {
    pub reference_bindings: bool,
    pub reference_scope: u64,
    pub plan: u64,
    pub call: Resolved,
    pub specs: Seq<UserArgumentSpec>,
    pub arguments: Seq<Option<Tree>>,
    pub captured: Seq<Option<Val>>,
    pub next_slot: usize,
    pub argument_checkpoint: Option<u64>,
}

impl View for RuntimeUserCall {
    type V = UserCall;

    open spec fn view(&self) -> UserCall {
        UserCall {
            reference_bindings: self.reference_bindings,
            reference_scope: self.reference_scope,
            plan: self.plan,
            call: self.call@,
            specs: self.specs@,
            arguments: ast::argument_trees(self.arguments@),
            captured: state::optional_vals(self.captured@),
            next_slot: self.next_slot,
            argument_checkpoint: self.argument_checkpoint,
        }
    }
}

/// A user call that has started.
#[derive(PartialEq, Eq, Debug)]
pub struct RuntimeUserWait {
    pub call: RuntimeUserCall,
    pub callee: FrameId,
    pub owner_stack_depth: usize,
}

/// Mathematical content of a [`RuntimeUserWait`].
#[verifier::ext_equal]
pub struct UserWait {
    pub call: UserCall,
    pub callee: FrameId,
    pub owner_stack_depth: usize,
}

impl View for RuntimeUserWait {
    type V = UserWait;

    open spec fn view(&self) -> UserWait {
        UserWait {
            call: self.call@,
            callee: self.callee,
            owner_stack_depth: self.owner_stack_depth,
        }
    }
}

/// What a checkpoint protects.
#[derive(Clone, Copy, PartialEq, Eq, Debug, Structural)]
pub enum FormatCheckpointKind {
    CheckedForm,
    ExpressionProbe,
    CallTextArguments(CallTextSpec),
}

/// A catch boundary of an evaluation.
#[derive(Clone, Copy, PartialEq, Eq, Debug, Structural)]
pub struct FormatCheckpoint {
    pub id: u64,
    pub kind: FormatCheckpointKind,
    pub work_depth: usize,
    pub value_depth: usize,
    pub output_depth: usize,
    pub owner_stack_depth: usize,
    pub owner_user_calls: usize,
}

/// How far a host call has come.
#[derive(PartialEq, Eq, Debug)]
pub enum HostPhase {
    Collect { stage: RuntimeHostStage, count: usize },
    Ready { stage: RuntimeHostStage, arguments: Vec<VmValue> },
    Waiting { stage: RuntimeHostStage, stack_depth: usize },
}

/// Mathematical content of a [`HostPhase`].
#[verifier::ext_equal]
pub enum Phase {
    Collect(RuntimeHostStage, usize),
    Ready(RuntimeHostStage, Seq<Val>),
    Waiting(RuntimeHostStage, usize),
}

impl View for HostPhase {
    type V = Phase;

    open spec fn view(&self) -> Phase {
        match self {
            HostPhase::Collect { stage, count } => Phase::Collect(*stage, *count),
            HostPhase::Ready { stage, arguments } => Phase::Ready(*stage, value::vals(arguments@)),
            HostPhase::Waiting { stage, stack_depth } => Phase::Waiting(*stage, *stack_depth),
        }
    }
}

/// A host call that is under way.
#[derive(PartialEq, Eq, Debug)]
pub struct RuntimeHostCall {
    pub id: u64,
    pub site: RuntimeCallSite,
    pub bound: Rc<BoundRuntimeHost>,
    pub source: Vec<Option<Rc<Expr>>>,
    pub phase: HostPhase,
    /// What an earlier stage gave: a measure or a ticket.
    pub prefix: Vec<VmValue>,
}

/// Mathematical content of a [`RuntimeHostCall`].
#[verifier::ext_equal]
pub struct HostCall {
    pub id: u64,
    pub site: RuntimeCallSite,
    pub bound: BoundService,
    pub source: Seq<Option<Tree>>,
    pub phase: Phase,
    pub prefix: Seq<Val>,
}

impl View for RuntimeHostCall {
    type V = HostCall;

    open spec fn view(&self) -> HostCall {
        HostCall {
            id: self.id,
            site: self.site,
            bound: self.bound@,
            source: ast::argument_trees(self.source@),
            phase: self.phase@,
            prefix: value::vals(self.prefix@),
        }
    }
}

/// Who holds a map.
#[derive(Clone, Copy, PartialEq, Eq, Debug, Structural)]
pub struct MapLeaseOwner {
    pub fiber: FiberId,
    pub frame: FrameId,
    pub generation: GenerationId,
    pub function: SymbolKey,
    pub instruction: usize,
    pub slot: u64,
}

/// A map that is kept while a call works on it.
#[derive(Clone, Copy, PartialEq, Eq, Debug, Structural)]
pub struct MapLease {
    pub id: u64,
    pub owner: MapLeaseOwner,
}

/// A map call whose map is captured; `kind` is the position of its operation in the program.
#[derive(PartialEq, Eq, Debug)]
pub struct MapWorkCall {
    pub slot: u64,
    pub lease: MapLease,
    pub name: String,
    pub kind: usize,
    pub bound: Rc<BoundRuntimeNative>,
    pub site: RuntimeCallSite,
    pub source: Vec<Option<Rc<Expr>>>,
    pub arity: usize,
    pub value_depth: usize,
}

/// Mathematical content of a [`MapWorkCall`].
#[verifier::ext_equal]
pub struct MapCall {
    pub slot: u64,
    pub lease: MapLease,
    pub name: Seq<char>,
    pub kind: usize,
    pub bound: BoundService,
    pub site: RuntimeCallSite,
    pub source: Seq<Option<Tree>>,
    pub arity: usize,
    pub value_depth: usize,
}

impl View for MapWorkCall {
    type V = MapCall;

    open spec fn view(&self) -> MapCall {
        MapCall {
            slot: self.slot,
            lease: self.lease,
            name: self.name@,
            kind: self.kind,
            bound: self.bound@,
            site: self.site,
            source: ast::argument_trees(self.source@),
            arity: self.arity,
            value_depth: self.value_depth,
        }
    }
}

/// A BIT call of a formatted text whose array is captured.
#[derive(PartialEq, Eq, Debug)]
pub struct FormBitCall {
    pub slot: u64,
    pub spec: BitCallSpec,
    pub site: RuntimeCallSite,
    pub source: Vec<Option<Rc<Expr>>>,
    pub lease: ArrayLeaseId,
    pub value_depth: usize,
    pub work: Option<BitWork>,
}

/// Mathematical content of a [`FormBitCall`].
#[verifier::ext_equal]
pub struct BitCall {
    pub slot: u64,
    pub spec: BitCallSpec,
    pub site: RuntimeCallSite,
    pub source: Seq<Option<Tree>>,
    pub lease: ArrayLeaseId,
    pub value_depth: usize,
    pub work: Option<BitWork>,
}

impl View for FormBitCall {
    type V = BitCall;

    open spec fn view(&self) -> BitCall {
        BitCall {
            slot: self.slot,
            spec: self.spec,
            site: self.site,
            source: ast::argument_trees(self.source@),
            lease: self.lease,
            value_depth: self.value_depth,
            work: self.work,
        }
    }
}

/// How far a MATCH scan has come.
#[derive(PartialEq, Eq, Debug)]
pub struct MatchState {
    pub input: SymbolKey,
    pub output: Option<SymbolKey>,
    pub needle_type: BytecodeType,
    pub needle: Option<VmValue>,
    pub phase: u8,
    pub count: i64,
}

/// Mathematical content of a [`MatchState`].
pub struct Scan {
    pub input: SymbolKey,
    pub output: Option<SymbolKey>,
    pub needle_type: BytecodeType,
    pub needle: Option<Val>,
    pub phase: u8,
    pub count: i64,
}

impl View for MatchState {
    type V = Scan;

    open spec fn view(&self) -> Scan {
        Scan {
            input: self.input,
            output: self.output,
            needle_type: self.needle_type,
            needle: state::optional_val(self.needle),
            phase: self.phase,
            count: self.count,
        }
    }
}

/// What a MATCH call waits for.
#[derive(Clone, Copy, PartialEq, Eq, Debug, Structural)]
pub enum MatchStage {
    Begin,
    End,
    Needle,
    Scan,
}

/// A MATCH call of a formatted text.
#[derive(PartialEq, Eq, Debug)]
pub struct FormMatch {
    pub site: RuntimeCallSite,
    pub arguments: Vec<Option<Rc<Expr>>>,
    pub spec: Rc<MatchCallSpec>,
    pub state: MatchState,
    pub value_depth: usize,
}

/// Mathematical content of a [`FormMatch`].
#[verifier::ext_equal]
pub struct MatchCall {
    pub site: RuntimeCallSite,
    pub arguments: Seq<Option<Tree>>,
    pub spec: MatchSpecModel,
    pub state: Scan,
    pub value_depth: usize,
}

impl View for FormMatch {
    type V = MatchCall;

    open spec fn view(&self) -> MatchCall {
        MatchCall {
            site: self.site,
            arguments: ast::argument_trees(self.arguments@),
            spec: self.spec@,
            state: self.state@,
            value_depth: self.value_depth,
        }
    }
}

/// An operation of the input controller.
#[derive(Clone, Copy, PartialEq, Eq, Debug, Structural)]
pub enum InputOperation {
    GetKey,
    GetKeyTriggered,
    SequenceInput,
    DisableInputMacro,
    EnableInputMacro,
    EnvHasCapability,
    GetPlatform,
    /// Tells whether keys are delivered at all.
    KeyActive,
}

/// The type that a dynamic method gives.
#[derive(Clone, Copy, PartialEq, Eq, Debug, Structural)]
pub enum MethodResult {
    Integer,
    String,
}

impl MethodResult {
    pub open spec fn kind(self) -> BytecodeType {
        match self {
            MethodResult::Integer => BytecodeType::Integer,
            MethodResult::String => BytecodeType::String,
        }
    }

    pub fn bytecode_type(self) -> (r: BytecodeType)
        ensures
            r == self.kind(),
    {
        match self {
            MethodResult::Integer => BytecodeType::Integer,
            MethodResult::String => BytecodeType::String,
        }
    }
}

/// One step that is still to be done.
#[allow(inconsistent_fields)]
#[derive(PartialEq, Eq, Debug)]
pub enum RuntimeFormTask {
    GateInputHost { plan: u64, key: Rc<Expr>, triggered: bool },
    FinishInputHost { operation: InputOperation, count: usize },
    ReadInputHost { depth: usize, gate: Option<(Rc<Expr>, bool)> },
    BitCapture { spec: BitCallSpec, site: RuntimeCallSite, source: Vec<Option<Rc<Expr>>> },
    BitFinish(FormBitCall),
    StartForm(Rc<FormattedString>),
    RenderForm(Rc<FormattedString>),
    RenderPart(Rc<FormPart>),
    FinishFormValue,
    CompleteRoot,
    BeginCheckedForm(String),
    FinishCheck(u64),
    FinishExpressionProbe(u64),
    FinishCallTextArgumentCatch(u64),
    ExistVarFirst { plan: u64, source: Rc<Expr>, mode: Option<Rc<Expr>> },
    ExistVarMode { plan: u64, source: Rc<Expr> },
    ParseCallText { source: String, spec: CallTextSpec },
    MapCapture {
        bound: Rc<BoundRuntimeNative>,
        site: RuntimeCallSite,
        arguments: Vec<Option<Rc<Expr>>>,
    },
    MapValuesEnabled { call: MapWorkCall, output: Option<Rc<Expr>> },
    MapFinish(MapWorkCall),
    ReferenceArgumentsPump,
    RestoreReferenceBindings(bool),
    RestoreCallPlan(Option<u64>),
    ReleaseReferenceArguments,
    FinishCallTextArguments { target: SymbolKey, spec: CallTextSpec },
    CaptureReferencePlace { key: SymbolKey, indices: usize },
    Evaluate(Rc<Expr>),
    Match(MatchStage, FormMatch),
    ReadVariable { name: String, indices: usize },
    ApplyUnary(UnaryOp),
    MutateVariable { variable: SymbolKey, indices: usize, mode: u8 },
    EvaluateBinaryRight { op: BinaryOp, right: Rc<Expr> },
    ApplyBinary(BinaryOp),
    ChooseTernary { then_expr: Rc<Expr>, else_expr: Rc<Expr> },
    FinishNative {
        site: RuntimeCallSite,
        bound: Rc<BoundRuntimeNative>,
        source: Vec<Option<Rc<Expr>>>,
    },
    HostAdvance(u64),
    FinishCall { name: String, arguments: usize },
    FinishInterpolation { string: bool, width: bool, alignment: Option<Alignment> },
    ChooseConditional { then_value: Rc<FormattedString>, else_value: Option<Rc<FormattedString>> },
    PushOmitted,
    ResolveMethod {
        plan: u64,
        result: MethodResult,
        fallback: Option<Rc<Expr>>,
        arguments: Vec<Option<Rc<Expr>>>,
    },
    MethodArgument(RuntimeUserCall),
    CaptureMethodArgument(RuntimeUserCall),
    ExistsMethod,
}

/// Mathematical content of a [`RuntimeFormTask`].
#[verifier::ext_equal]
pub enum Task {
    GateInputHost(u64, Tree, bool),
    FinishInputHost(InputOperation, usize),
    ReadInputHost(usize, Option<(Tree, bool)>),
    BitCapture(BitCallSpec, RuntimeCallSite, Seq<Option<Tree>>),
    BitFinish(BitCall),
    StartForm(FormTree),
    RenderForm(FormTree),
    RenderPart(PartTree),
    FinishFormValue,
    CompleteRoot,
    BeginCheckedForm(Seq<char>),
    FinishCheck(u64),
    FinishExpressionProbe(u64),
    FinishCallTextArgumentCatch(u64),
    ExistVarFirst(u64, Tree, Option<Tree>),
    ExistVarMode(u64, Tree),
    ParseCallText(Seq<char>, CallTextSpec),
    MapCapture(BoundService, RuntimeCallSite, Seq<Option<Tree>>),
    MapValuesEnabled(MapCall, Option<Tree>),
    MapFinish(MapCall),
    ReferenceArgumentsPump,
    RestoreReferenceBindings(bool),
    RestoreCallPlan(Option<u64>),
    ReleaseReferenceArguments,
    FinishCallTextArguments(SymbolKey, CallTextSpec),
    CaptureReferencePlace(SymbolKey, usize),
    Evaluate(Tree),
    Match(MatchStage, MatchCall),
    ReadVariable(Seq<char>, usize),
    ApplyUnary(UnaryOp),
    MutateVariable(SymbolKey, usize, u8),
    EvaluateBinaryRight(BinaryOp, Tree),
    ApplyBinary(BinaryOp),
    ChooseTernary(Tree, Tree),
    FinishNative(RuntimeCallSite, BoundService, Seq<Option<Tree>>),
    HostAdvance(u64),
    FinishCall(Seq<char>, usize),
    FinishInterpolation(bool, bool, Option<Alignment>),
    ChooseConditional(FormTree, Option<FormTree>),
    PushOmitted,
    ResolveMethod(u64, MethodResult, Option<Tree>, Seq<Option<Tree>>),
    MethodArgument(UserCall),
    CaptureMethodArgument(UserCall),
    ExistsMethod,
}

/// The form in an optional branch.
pub open spec fn optional_form(f: Option<Rc<FormattedString>>) -> Option<FormTree> {
    match f {
        Some(f) => Some(f@),
        None => None,
    }
}

pub open spec fn gate_view(gate: Option<(Rc<Expr>, bool)>) -> Option<(Tree, bool)> {
    match gate {
        Some((key, triggered)) => Some((key@, triggered)),
        None => None,
    }
}

impl View for RuntimeFormTask {
    type V = Task;

    open spec fn view(&self) -> Task {
        match self {
            RuntimeFormTask::GateInputHost { plan, key, triggered } => Task::GateInputHost(
                *plan,
                key@,
                *triggered,
            ),
            RuntimeFormTask::FinishInputHost { operation, count } => Task::FinishInputHost(
                *operation,
                *count,
            ),
            RuntimeFormTask::ReadInputHost { depth, gate } => Task::ReadInputHost(
                *depth,
                gate_view(*gate),
            ),
            RuntimeFormTask::BitCapture { spec, site, source } => Task::BitCapture(
                *spec,
                *site,
                ast::argument_trees(source@),
            ),
            RuntimeFormTask::BitFinish(call) => Task::BitFinish(call@),
            RuntimeFormTask::StartForm(f) => Task::StartForm(f@),
            RuntimeFormTask::RenderForm(f) => Task::RenderForm(f@),
            RuntimeFormTask::RenderPart(p) => Task::RenderPart(p@),
            RuntimeFormTask::FinishFormValue => Task::FinishFormValue,
            RuntimeFormTask::CompleteRoot => Task::CompleteRoot,
            RuntimeFormTask::BeginCheckedForm(s) => Task::BeginCheckedForm(s@),
            RuntimeFormTask::FinishCheck(id) => Task::FinishCheck(*id),
            RuntimeFormTask::FinishExpressionProbe(id) => Task::FinishExpressionProbe(*id),
            RuntimeFormTask::FinishCallTextArgumentCatch(id) => Task::FinishCallTextArgumentCatch(
                *id,
            ),
            RuntimeFormTask::ExistVarFirst { plan, source, mode } => Task::ExistVarFirst(
                *plan,
                source@,
                ast::argument_tree(*mode),
            ),
            RuntimeFormTask::ExistVarMode { plan, source } => Task::ExistVarMode(*plan, source@),
            RuntimeFormTask::ParseCallText { source, spec } => Task::ParseCallText(source@, *spec),
            RuntimeFormTask::MapCapture { bound, site, arguments } => Task::MapCapture(
                bound@,
                *site,
                ast::argument_trees(arguments@),
            ),
            RuntimeFormTask::MapValuesEnabled { call, output } => Task::MapValuesEnabled(
                call@,
                ast::argument_tree(*output),
            ),
            RuntimeFormTask::MapFinish(call) => Task::MapFinish(call@),
            RuntimeFormTask::ReferenceArgumentsPump => Task::ReferenceArgumentsPump,
            RuntimeFormTask::RestoreReferenceBindings(b) => Task::RestoreReferenceBindings(*b),
            RuntimeFormTask::RestoreCallPlan(p) => Task::RestoreCallPlan(*p),
            RuntimeFormTask::ReleaseReferenceArguments => Task::ReleaseReferenceArguments,
            RuntimeFormTask::FinishCallTextArguments { target, spec } =>
                Task::FinishCallTextArguments(*target, *spec),
            RuntimeFormTask::CaptureReferencePlace { key, indices } => Task::CaptureReferencePlace(
                *key,
                *indices,
            ),
            RuntimeFormTask::Evaluate(e) => Task::Evaluate(e@),
            RuntimeFormTask::Match(stage, call) => Task::Match(*stage, call@),
            RuntimeFormTask::ReadVariable { name, indices } => Task::ReadVariable(name@, *indices),
            RuntimeFormTask::ApplyUnary(op) => Task::ApplyUnary(*op),
            RuntimeFormTask::MutateVariable { variable, indices, mode } => Task::MutateVariable(
                *variable,
                *indices,
                *mode,
            ),
            RuntimeFormTask::EvaluateBinaryRight { op, right } => Task::EvaluateBinaryRight(
                *op,
                right@,
            ),
            RuntimeFormTask::ApplyBinary(op) => Task::ApplyBinary(*op),
            RuntimeFormTask::ChooseTernary { then_expr, else_expr } => Task::ChooseTernary(
                then_expr@,
                else_expr@,
            ),
            RuntimeFormTask::FinishNative { site, bound, source } => Task::FinishNative(
                *site,
                bound@,
                ast::argument_trees(source@),
            ),
            RuntimeFormTask::HostAdvance(id) => Task::HostAdvance(*id),
            RuntimeFormTask::FinishCall { name, arguments } => Task::FinishCall(name@, *arguments),
            RuntimeFormTask::FinishInterpolation { string, width, alignment } =>
                Task::FinishInterpolation(*string, *width, *alignment),
            RuntimeFormTask::ChooseConditional { then_value, else_value } =>
                Task::ChooseConditional(then_value@, optional_form(*else_value)),
            RuntimeFormTask::PushOmitted => Task::PushOmitted,
            RuntimeFormTask::ResolveMethod { plan, result, fallback, arguments } =>
                Task::ResolveMethod(
                *plan,
                *result,
                ast::argument_tree(*fallback),
                ast::argument_trees(arguments@),
            ),
            RuntimeFormTask::MethodArgument(call) => Task::MethodArgument(call@),
            RuntimeFormTask::CaptureMethodArgument(call) => Task::CaptureMethodArgument(call@),
            RuntimeFormTask::ExistsMethod => Task::ExistsMethod,
        }
    }
}

pub open spec fn task_views(s: Seq<RuntimeFormTask>) -> Seq<Task> {
    s.map_values(|t: RuntimeFormTask| t@)
}

/// What an evaluation is for.
#[derive(Clone, Copy, PartialEq, Eq, Debug, Structural)]
pub enum RuntimeFormRoot {
    Value(BytecodeType),
    Call { spec: CallTextSpec, failed: bool },
}

/// A term during reduction: a node, or the literal that replaced it.
#[derive(PartialEq, Eq, Debug)]
pub enum TermRef {
    Original(u32),
    Single(ReferenceTermValue),
}

/// Mathematical content of a [`TermRef`].
pub enum Edge {
    Original(u32),
    Single(Literal),
}

impl View for TermRef {
    type V = Edge;

    open spec fn view(&self) -> Edge {
        match self {
            TermRef::Original(id) => Edge::Original(*id),
            TermRef::Single(v) => Edge::Single(v@),
        }
    }
}

impl Clone for TermRef {
    fn clone(&self) -> (r: TermRef)
        ensures
            r@ == self@,
    {
        match self {
            TermRef::Original(id) => TermRef::Original(*id),
            TermRef::Single(v) => TermRef::Single(v.clone()),
        }
    }
}

pub open spec fn edges(s: Seq<TermRef>) -> Seq<Edge> {
    s.map_values(|t: TermRef| t@)
}

pub open spec fn edge_lists(s: Seq<Vec<TermRef>>) -> Seq<Seq<Edge>> {
    s.map_values(|t: Vec<TermRef>| edges(t@))
}

pub open spec fn optional_edge(t: Option<TermRef>) -> Option<Edge> {
    match t {
        Some(t) => Some(t@),
        None => None,
    }
}

pub open spec fn optional_edges(s: Seq<Option<TermRef>>) -> Seq<Option<Edge>> {
    s.map_values(|t: Option<TermRef>| optional_edge(t))
}

/// A graph with the literals that replaced parts of it.
#[derive(PartialEq, Eq, Debug)]
pub struct PreparedReferenceArguments {
    pub template: ReferenceTermGraph,
    pub edges: Vec<Vec<TermRef>>,
    pub roots: Vec<Option<TermRef>>,
}

/// Mathematical content of [`PreparedReferenceArguments`].
#[verifier::ext_equal]
pub struct Prepared {
    pub template: Graph,
    pub edges: Seq<Seq<Edge>>,
    pub roots: Seq<Option<Edge>>,
}

impl View for PreparedReferenceArguments {
    type V = Prepared;

    open spec fn view(&self) -> Prepared {
        Prepared {
            template: self.template@,
            edges: edge_lists(self.edges@),
            roots: optional_edges(self.roots@),
        }
    }
}

/// The children of a node that are being visited.
#[derive(PartialEq, Eq, Debug)]
pub struct Children {
    pub node: u32,
    pub reject_constant_index: bool,
    pub visits: Vec<(usize, bool)>,
    pub next: usize,
    pub results: Vec<TermRef>,
}

/// Mathematical content of [`Children`].
#[verifier::ext_equal]
pub struct Visit {
    pub node: u32,
    pub reject_constant_index: bool,
    pub visits: Seq<(usize, bool)>,
    pub next: usize,
    pub results: Seq<Edge>,
}

impl View for Children {
    type V = Visit;

    open spec fn view(&self) -> Visit {
        Visit {
            node: self.node,
            reject_constant_index: self.reject_constant_index,
            visits: self.visits@,
            next: self.next,
            results: edges(self.results@),
        }
    }
}

/// One step of a reduction.
#[derive(PartialEq, Eq, Debug)]
pub enum RestructureTask {
    Visit { term: TermRef, reject_constant_index: bool },
    Children(Children),
    CaptureChild(Children),
    CaptureFold,
    DiscardUniqueValue(u32),
    CheckFormPredicate(u32),
    CaptureRoot(usize),
    Publish,
}

/// Mathematical content of a [`RestructureTask`].
#[verifier::ext_equal]
pub enum Reduction {
    Visit(Edge, bool),
    Children(Visit),
    CaptureChild(Visit),
    CaptureFold,
    DiscardUniqueValue(u32),
    CheckFormPredicate(u32),
    CaptureRoot(usize),
    Publish,
}

impl View for RestructureTask {
    type V = Reduction;

    open spec fn view(&self) -> Reduction {
        match self {
            RestructureTask::Visit { term, reject_constant_index } => Reduction::Visit(
                term@,
                *reject_constant_index,
            ),
            RestructureTask::Children(c) => Reduction::Children(c@),
            RestructureTask::CaptureChild(c) => Reduction::CaptureChild(c@),
            RestructureTask::CaptureFold => Reduction::CaptureFold,
            RestructureTask::DiscardUniqueValue(n) => Reduction::DiscardUniqueValue(*n),
            RestructureTask::CheckFormPredicate(n) => Reduction::CheckFormPredicate(*n),
            RestructureTask::CaptureRoot(i) => Reduction::CaptureRoot(*i),
            RestructureTask::Publish => Reduction::Publish,
        }
    }
}

pub open spec fn reductions(s: Seq<RestructureTask>) -> Seq<Reduction> {
    s.map_values(|t: RestructureTask| t@)
}

/// Arguments that are being reduced, or have been.
#[derive(PartialEq, Eq, Debug)]
pub struct PendingReferenceArguments {
    pub graph: PreparedReferenceArguments,
    pub tasks: Vec<RestructureTask>,
    pub results: Vec<TermRef>,
    pub preparing: bool,
}

/// Mathematical content of [`PendingReferenceArguments`].
#[verifier::ext_equal]
pub struct Pending {
    pub graph: Prepared,
    pub tasks: Seq<Reduction>,
    pub results: Seq<Edge>,
    pub preparing: bool,
}

impl View for PendingReferenceArguments {
    type V = Pending;

    open spec fn view(&self) -> Pending {
        Pending {
            graph: self.graph@,
            tasks: reductions(self.tasks@),
            results: edges(self.results@),
            preparing: self.preparing,
        }
    }
}

/// A formatted text under evaluation.
#[derive(PartialEq, Eq, Debug)]
pub struct RuntimeFormContinuation {
    pub generation: GenerationId,
    pub function: SymbolKey,
    pub frame: FrameId,
    pub instruction: usize,
    pub work: Vec<RuntimeFormTask>,
    pub values: Vec<VmValue>,
    pub outputs: Vec<String>,
    pub awaiting_user_call: Option<RuntimeUserWait>,
    pub checkpoints: Vec<FormatCheckpoint>,
    pub next_checkpoint: u64,
    pub host_calls: Vec<RuntimeHostCall>,
    pub next_host_scope: u64,
    pub next_map_call: u64,
    pub next_reference_scope: u64,
    pub next_bit_call: u64,
    pub completion: RuntimeFormRoot,
    pub reference_arguments: Option<PendingReferenceArguments>,
    pub reference_bindings: bool,
    pub call_plans: Vec<RuntimeCallPlan>,
    pub current_call_plan: Option<u64>,
    pub next_call_plan: u64,
    pub remaining_nodes: usize,
    pub remaining_source_bytes: usize,
}

/// Mathematical content of a [`RuntimeFormContinuation`].
#[verifier::ext_equal]
pub struct Form {
    pub generation: GenerationId,
    pub function: SymbolKey,
    pub frame: FrameId,
    pub instruction: usize,
    pub work: Seq<Task>,
    pub values: Seq<Val>,
    pub outputs: Seq<Seq<char>>,
    pub awaiting: Option<UserWait>,
    pub checkpoints: Seq<FormatCheckpoint>,
    pub next_checkpoint: u64,
    pub host_calls: Seq<HostCall>,
    pub next_host_scope: u64,
    pub next_map_call: u64,
    pub next_reference_scope: u64,
    pub next_bit_call: u64,
    pub completion: RuntimeFormRoot,
    pub pending: Option<Pending>,
    pub reference_bindings: bool,
    pub plans: Seq<Plan>,
    pub current_plan: Option<u64>,
    pub next_plan: u64,
    pub remaining_nodes: usize,
    pub remaining_bytes: usize,
}

pub open spec fn host_views(s: Seq<RuntimeHostCall>) -> Seq<HostCall> {
    s.map_values(|h: RuntimeHostCall| h@)
}

pub open spec fn plan_views(s: Seq<RuntimeCallPlan>) -> Seq<Plan> {
    s.map_values(|p: RuntimeCallPlan| p@)
}

pub open spec fn output_views(s: Seq<String>) -> Seq<Seq<char>> {
    s.map_values(|t: String| t@)
}

pub open spec fn wait_view(w: Option<RuntimeUserWait>) -> Option<UserWait> {
    match w {
        Some(w) => Some(w@),
        None => None,
    }
}

pub open spec fn pending_view(p: Option<PendingReferenceArguments>) -> Option<Pending> {
    match p {
        Some(p) => Some(p@),
        None => None,
    }
}

impl View for RuntimeFormContinuation {
    type V = Form;

    open spec fn view(&self) -> Form {
        Form {
            generation: self.generation,
            function: self.function,
            frame: self.frame,
            instruction: self.instruction,
            work: task_views(self.work@),
            values: value::vals(self.values@),
            outputs: output_views(self.outputs@),
            awaiting: wait_view(self.awaiting_user_call),
            checkpoints: self.checkpoints@,
            next_checkpoint: self.next_checkpoint,
            host_calls: host_views(self.host_calls@),
            next_host_scope: self.next_host_scope,
            next_map_call: self.next_map_call,
            next_reference_scope: self.next_reference_scope,
            next_bit_call: self.next_bit_call,
            completion: self.completion,
            pending: pending_view(self.reference_arguments),
            reference_bindings: self.reference_bindings,
            plans: plan_views(self.call_plans@),
            current_plan: self.current_call_plan,
            next_plan: self.next_call_plan,
            remaining_nodes: self.remaining_nodes,
            remaining_bytes: self.remaining_source_bytes,
        }
    }
}

/// Mathematical content of the evaluation that a frame holds.
pub open spec fn form_view(f: Option<RuntimeFormContinuation>) -> Option<Form> {
    match f {
        Some(f) => Some(f@),
        None => None,
    }
}

impl Form {
    pub open spec fn with_task(self, task: Task) -> Form {
        Form { work: self.work.push(task), ..self }
    }

    pub open spec fn with_value(self, v: Val) -> Form {
        Form { values: self.values.push(v), ..self }
    }
}

impl RuntimeFormContinuation {
    /// Schedules a step.
    pub fn push_task(&mut self, task: RuntimeFormTask)
        ensures
            final(self)@ == old(self)@.with_task(task@),
    {
        self.work.push(task);
        assert(task_views(self.work@) =~= task_views(old(self).work@).push(task@));
    }

    /// Puts a value on the value stack.
    pub fn push_value(&mut self, v: VmValue)
        ensures
            final(self)@ == old(self)@.with_value(v@),
    {
        self.values.push(v);
        assert(value::vals(self.values@) =~= value::vals(old(self).values@).push(v@));
    }
}

} // verus!
