//! Machine state: frames, fibers, memory and the machine itself.

use vstd::prelude::*;
use std::rc::Rc;
use crate::forms::{self, Form, RuntimeFormContinuation};
use crate::lookup;
use crate::memory::{self, CellAddress, CellMap, Cells};
use crate::program::{BitCallSpec, ProgramGeneration, RuntimeImport, UserCallMode};
use crate::value::{
    self, ArrayLeaseId, BytecodeType, FiberId, FrameId, GenerationId, Place, PlaceDescriptor,
    SymbolKey, Val, VmValue,
};

verus! {

/// An open counting loop.
#[derive(PartialEq, Eq, Debug)]
pub struct ForLoopState {
    pub counter: PlaceDescriptor,
    pub end: i64,
    pub step: i64,
}

/// Mathematical content of a [`ForLoopState`].
#[verifier::ext_equal]
pub struct LoopModel {
    pub counter: Place,
    pub end: i64,
    pub step: i64,
}

impl View for ForLoopState {
    type V = LoopModel;

    open spec fn view(&self) -> LoopModel {
        LoopModel { counter: self.counter@, end: self.end, step: self.step }
    }
}

/// The place that stands for nothing.
pub open spec fn nowhere() -> Place {
    Place {
        backing: None,
        variable: SymbolKey(0),
        indices: Seq::empty(),
        character: None,
        fiber: None,
        frame: None,
    }
}

impl PlaceDescriptor {
    /// An unindexed place of a variable.
    pub fn of_variable(variable: SymbolKey) -> (r: PlaceDescriptor)
        ensures
            r@ == (Place { variable, ..nowhere() }),
    {
        let r = PlaceDescriptor {
            backing: None,
            variable,
            indices: Vec::new(),
            character: None,
            fiber: None,
            frame: None,
        };
        assert(r@ =~= (Place { variable, ..nowhere() }));
        r
    }
}

impl LoopModel {
    /// A loop that was entered by a jump past its head; it has no counter and no step.
    pub open spec fn bypassed() -> LoopModel {
        LoopModel { counter: nowhere(), end: 0, step: 0 }
    }

    pub open spec fn is_bypassed(self) -> bool {
        self.step == 0
    }
}

impl Clone for ForLoopState {
    fn clone(&self) -> (r: ForLoopState)
        ensures
            r@ == self@,
    {
        ForLoopState { counter: self.counter.clone(), end: self.end, step: self.step }
    }
}

impl ForLoopState {
    pub fn bypassed() -> (r: ForLoopState)
        ensures
            r@ == LoopModel::bypassed(),
    {
        ForLoopState { counter: PlaceDescriptor::of_variable(SymbolKey(0)), end: 0, step: 0 }
    }

    pub fn is_bypassed(&self) -> (r: bool)
        ensures
            r == self@.is_bypassed(),
    {
        self.step == 0
    }
}

/// How one formal parameter of a resolved user call gets its value.
#[derive(PartialEq, Eq, Debug)]
pub enum UserArgumentBinding {
    Value(BytecodeType),
    ArrayReference,
    Default(Option<Rc<VmValue>>),
}

/// A user call whose target is known.
#[derive(PartialEq, Eq, Debug)]
pub struct ResolvedUserCall {
    pub generation: GenerationId,
    pub function: SymbolKey,
    pub mode: UserCallMode,
    pub bindings: Vec<UserArgumentBinding>,
}

/// A user call whose arguments are being evaluated.
#[derive(PartialEq, Eq, Debug)]
pub struct PendingUserCall {
    pub resolve: usize,
    pub stack_index: usize,
    pub next_slot: usize,
    pub captured: Vec<Option<VmValue>>,
    pub call: Rc<ResolvedUserCall>,
}

/// Mathematical content of a [`PendingUserCall`].
#[verifier::ext_equal]
pub struct PendingModel {
    pub resolve: usize,
    pub stack_index: usize,
    pub next_slot: usize,
    pub captured: Seq<Option<Val>>,
    pub call: ResolvedUserCall,
}

pub open spec fn optional_val(v: Option<VmValue>) -> Option<Val> {
    match v {
        Some(x) => Some(x@),
        None => None,
    }
}

pub open spec fn optional_vals(s: Seq<Option<VmValue>>) -> Seq<Option<Val>> {
    s.map_values(|v: Option<VmValue>| optional_val(v))
}

impl View for PendingUserCall {
    type V = PendingModel;

    open spec fn view(&self) -> PendingModel {
        PendingModel {
            resolve: self.resolve,
            stack_index: self.stack_index,
            next_slot: self.next_slot,
            captured: optional_vals(self.captured@),
            call: *self.call,
        }
    }
}

/// A catch boundary of an expression probe.
#[derive(Clone, Copy, PartialEq, Eq, Debug, Structural)]
pub struct ExistVarCheckpoint {
    pub begin: usize,
    pub failure: usize,
    pub stack_index: usize,
    pub user_calls: usize,
    pub caught: bool,
}

/// How far a BIT call has come over its array.
#[derive(Clone, Copy, PartialEq, Eq, Debug, Structural)]
pub struct BitWork {
    pub cursor: u64,
    pub end: u64,
    pub value: i64,
}

/// A BIT call whose array is captured.
#[derive(Clone, Copy, PartialEq, Eq, Debug, Structural)]
pub struct PendingBitCall {
    pub begin: usize,
    pub stack_index: usize,
    pub spec: BitCallSpec,
    pub lease: ArrayLeaseId,
    pub work: Option<BitWork>,
}

/// One handler of a running event.
#[derive(Clone, Copy, PartialEq, Eq, Debug, Structural)]
pub struct EventDispatchEntry {
    pub function: SymbolKey,
    pub single: bool,
    pub group: u8,
}

/// A running event: the active handler and those still to run.
#[derive(PartialEq, Eq, Debug)]
pub struct EventDispatch {
    pub active: EventDispatchEntry,
    pub pending: Vec<EventDispatchEntry>,
}

/// Mathematical content of an [`EventDispatch`].
#[verifier::ext_equal]
pub struct EventModel {
    pub active: EventDispatchEntry,
    pub pending: Seq<EventDispatchEntry>,
}

pub open spec fn event_view(e: Option<EventDispatch>) -> Option<EventModel> {
    match e {
        Some(d) => Some(EventModel { active: d.active, pending: d.pending@ }),
        None => None,
    }
}

/// One activation of a function.
#[derive(PartialEq, Eq, Debug)]
pub struct Frame {
    pub id: FrameId,
    pub generation: GenerationId,
    pub function: SymbolKey,
    pub instruction: usize,
    pub stack: Vec<VmValue>,
    pub locals: CellMap,
    pub arguments: Vec<VmValue>,
    pub for_loops: Vec<ForLoopState>,
    pub select_values: Vec<VmValue>,
    pub user_calls: Vec<PendingUserCall>,
    pub existvar_checks: Vec<ExistVarCheckpoint>,
    pub bit_calls: Vec<PendingBitCall>,
    pub returns_value: bool,
    pub event_context: bool,
    pub event_dispatch: Option<EventDispatch>,
    pub runtime_form: Option<RuntimeFormContinuation>,
}

/// Mathematical content of a [`Frame`].
#[verifier::ext_equal]
pub struct FrameModel {
    pub id: FrameId,
    pub generation: GenerationId,
    pub function: SymbolKey,
    pub instruction: usize,
    pub stack: Seq<Val>,
    pub locals: Cells,
    pub arguments: Seq<Val>,
    pub for_loops: Seq<LoopModel>,
    pub select_values: Seq<Val>,
    pub user_calls: Seq<PendingModel>,
    pub existvar_checks: Seq<ExistVarCheckpoint>,
    pub bit_calls: Seq<PendingBitCall>,
    pub returns_value: bool,
    pub event_context: bool,
    pub event_dispatch: Option<EventModel>,
    pub runtime_form: Option<Form>,
}

pub open spec fn loop_views(s: Seq<ForLoopState>) -> Seq<LoopModel> {
    s.map_values(|l: ForLoopState| l@)
}

pub open spec fn pending_views(s: Seq<PendingUserCall>) -> Seq<PendingModel> {
    s.map_values(|p: PendingUserCall| p@)
}

impl View for Frame {
    type V = FrameModel;

    open spec fn view(&self) -> FrameModel {
        FrameModel {
            id: self.id,
            generation: self.generation,
            function: self.function,
            instruction: self.instruction,
            stack: value::vals(self.stack@),
            locals: self.locals@,
            arguments: value::vals(self.arguments@),
            for_loops: loop_views(self.for_loops@),
            select_values: value::vals(self.select_values@),
            user_calls: pending_views(self.user_calls@),
            existvar_checks: self.existvar_checks@,
            bit_calls: self.bit_calls@,
            returns_value: self.returns_value,
            event_context: self.event_context,
            event_dispatch: event_view(self.event_dispatch),
            runtime_form: forms::form_view(self.runtime_form),
        }
    }
}

/// A value that marks a SELECTCASE entered past its head.
pub open spec fn bypassed_select() -> Val {
    Val::IntegerPlace(nowhere())
}

impl FrameModel {
    /// Slots that count against the operand limit: values and open contexts.
    pub open spec fn operand_slots(self) -> nat {
        self.stack.len() + self.existvar_checks.len() + self.bit_calls.len() + pending_slots(
            self.user_calls,
        )
    }
}

/// Slots of the pending user calls: one each, and one for each captured argument.
pub open spec fn pending_slots(calls: Seq<PendingModel>) -> nat
    decreases calls.len(),
{
    if calls.len() == 0 {
        0
    } else {
        pending_slots(calls.drop_last()) + 1 + calls.last().captured.len()
    }
}

impl Frame {
    /// Slots that count against the operand limit, where the count fits the machine.
    pub fn operand_slots(&self) -> (r: Option<usize>)
        ensures
            match r {
                Some(n) => n == self@.operand_slots(),
                None => self@.operand_slots() > usize::MAX,
            },
    {
        let mut total: usize = self.stack.len();
        match total.checked_add(self.existvar_checks.len()) {
            Some(n) => {
                total = n;
            },
            None => {
                return None;
            },
        }
        match total.checked_add(self.bit_calls.len()) {
            Some(n) => {
                total = n;
            },
            None => {
                return None;
            },
        }
        let ghost base = total as nat;
        let ghost calls = pending_views(self.user_calls@);
        let mut i: usize = 0;
        assert(calls.take(0) =~= Seq::<PendingModel>::empty());
        while i < self.user_calls.len()
            invariant
                i <= self.user_calls.len(),
                calls == pending_views(self.user_calls@),
                base == self@.stack.len() + self@.existvar_checks.len() + self@.bit_calls.len(),
                total == base + pending_slots(calls.take(i as int)),
            decreases self.user_calls.len() - i,
        {
            proof {
                assert(calls.take(i + 1).drop_last() =~= calls.take(i as int));
                assert(calls.take(i + 1).last() == calls[i as int]);
                lemma_pending_slots_grow(calls, i + 1);
            }
            match total.checked_add(1) {
                Some(n) => match n.checked_add(self.user_calls[i].captured.len()) {
                    Some(m) => {
                        total = m;
                    },
                    None => {
                        return None;
                    },
                },
                None => {
                    return None;
                },
            }
            i = i + 1;
        }
        assert(calls.take(i as int) =~= calls);
        Some(total)
    }
}

proof fn lemma_pending_slots_grow(calls: Seq<PendingModel>, n: int)
    requires
        0 <= n <= calls.len(),
    ensures
        pending_slots(calls.take(n)) <= pending_slots(calls),
    decreases calls.len() - n,
{
    if n == calls.len() {
        assert(calls.take(n) =~= calls);
    } else {
        lemma_pending_slots_grow(calls, n + 1);
        assert(calls.take(n + 1).drop_last() =~= calls.take(n));
    }
}

/// How long a host wait can be kept.
#[derive(Clone, Copy, PartialEq, Eq, Debug, Structural)]
pub enum HostWaitStability {
    Transient,
    StableInput,
}

/// A fiber that waits for the host.
#[derive(PartialEq, Eq, Debug)]
pub struct WaitingHost {
    pub request: u64,
    pub import: Rc<RuntimeImport>,
    pub result: Option<BytecodeType>,
    pub stability: HostWaitStability,
    pub rebind_payload: Vec<u8>,
    pub origin: Rc<VmExecutionOrigin>,
}

/// Where execution stood.
#[derive(PartialEq, Eq, Debug)]
pub struct VmExecutionOrigin {
    pub generation: GenerationId,
    pub function: SymbolKey,
    pub function_name: String,
    pub instruction: u32,
    pub command: String,
    pub source: Option<crate::program::SourceLocation>,
}

#[derive(PartialEq, Eq, Debug)]
pub enum FiberState {
    Runnable,
    WaitingHost(WaitingHost),
    WaitingResume(BytecodeType),
}

/// Mathematical content of a [`WaitingHost`].
#[verifier::ext_equal]
pub struct WaitModel {
    pub request: u64,
    pub import: RuntimeImport,
    pub result: Option<BytecodeType>,
    pub stability: HostWaitStability,
    pub rebind_payload: Seq<u8>,
    pub origin: crate::faults::OriginModel,
}

/// Mathematical content of a [`FiberState`].
#[verifier::ext_equal]
pub enum StateModel {
    Runnable,
    WaitingHost(WaitModel),
    WaitingResume(BytecodeType),
}

impl View for WaitingHost {
    type V = WaitModel;

    open spec fn view(&self) -> WaitModel {
        WaitModel {
            request: self.request,
            import: *self.import,
            result: self.result,
            stability: self.stability,
            rebind_payload: self.rebind_payload@,
            origin: self.origin@,
        }
    }
}

impl View for FiberState {
    type V = StateModel;

    open spec fn view(&self) -> StateModel {
        match self {
            FiberState::Runnable => StateModel::Runnable,
            FiberState::WaitingHost(w) => StateModel::WaitingHost(w@),
            FiberState::WaitingResume(t) => StateModel::WaitingResume(*t),
        }
    }
}

/// One thread of execution.
#[derive(PartialEq, Eq, Debug)]
pub struct Fiber {
    pub id: FiberId,
    pub frames: Vec<Frame>,
    pub state: FiberState,
    pub backward_branches_without_progress: u64,
}

/// Mathematical content of a [`Fiber`].
#[verifier::ext_equal]
pub struct FiberModel {
    pub id: FiberId,
    pub frames: Seq<FrameModel>,
    pub state: StateModel,
    pub backward: u64,
}

pub open spec fn frame_views(s: Seq<Frame>) -> Seq<FrameModel> {
    s.map_values(|f: Frame| f@)
}

impl View for Fiber {
    type V = FiberModel;

    open spec fn view(&self) -> FiberModel {
        FiberModel {
            id: self.id,
            frames: frame_views(self.frames@),
            state: self.state@,
            backward: self.backward_branches_without_progress,
        }
    }
}

impl FiberModel {
    /// The running frame.
    pub open spec fn top(self) -> FrameModel {
        self.frames.last()
    }

    /// The fiber with its running frame replaced.
    pub open spec fn with_top(self, frame: FrameModel) -> FiberModel {
        FiberModel { frames: self.frames.update(self.frames.len() - 1, frame), ..self }
    }

    /// The fiber with the operand stack of its running frame replaced.
    pub open spec fn with_stack(self, stack: Seq<Val>) -> FiberModel {
        self.with_top(FrameModel { stack, ..self.top() })
    }
}

impl Fiber {
    /// The running frame.
    pub fn top(&self) -> (r: &Frame)
        requires
            self@.frames.len() > 0,
        ensures
            r@ == self@.top(),
            r == self.frames@.last(),
    {
        &self.frames[self.frames.len() - 1]
    }

    /// The running frame, for changing it.
    pub fn top_mut(&mut self) -> (r: &mut Frame)
        requires
            old(self)@.frames.len() > 0,
        ensures
            r@ == old(self)@.top(),
            final(self)@ == old(self)@.with_top(final(r)@),
    {
        let at: usize = self.frames.len() - 1;
        let ghost before = self.frames@;
        let r = &mut self.frames[at];
        proof {
            let after = before.update(at as int, *final(r));
            assert(frame_views(after) =~= frame_views(before).update(at as int, final(r)@));
        }
        r
    }
}

/// Where an array lease comes from.
#[allow(inconsistent_fields)]
#[derive(Clone, Copy, PartialEq, Eq, Debug, Structural)]
pub enum ArrayLeaseOrigin {
    Bytecode { begin: usize },
    UserBytecode { resolve: usize, slot: usize },
    RuntimeForm { instruction: usize, slot: u64 },
}

#[derive(Clone, Copy, PartialEq, Eq, Debug, Structural)]
pub struct ArrayLeaseOwner {
    pub fiber: FiberId,
    pub frame: FrameId,
    pub generation: GenerationId,
    pub function: SymbolKey,
    pub origin: ArrayLeaseOrigin,
}

/// An array that is kept in place while a call works on it.
#[derive(Clone, Copy, PartialEq, Eq, Debug, Structural)]
pub struct ArrayLease {
    pub id: ArrayLeaseId,
    pub input: SymbolKey,
    pub length: u64,
    pub address: CellAddress,
    pub owner: ArrayLeaseOwner,
}

/// All storage outside frames.
#[derive(PartialEq, Eq, Debug)]
pub struct Memory {
    pub shared: CellMap,
    pub statics: CellMap,
    pub characters: Vec<CellMap>,
    pub array_leases: Vec<ArrayLease>,
}

/// Mathematical content of [`Memory`].
#[verifier::ext_equal]
pub struct Store {
    pub shared: Cells,
    pub statics: Cells,
    pub characters: Seq<Cells>,
    pub leases: Seq<ArrayLease>,
}

pub open spec fn character_views(s: Seq<CellMap>) -> Seq<Cells> {
    s.map_values(|c: CellMap| c@)
}

impl View for Memory {
    type V = Store;

    open spec fn view(&self) -> Store {
        Store {
            shared: self.shared@,
            statics: self.statics@,
            characters: character_views(self.characters@),
            leases: self.array_leases@,
        }
    }
}

#[derive(Clone, Copy, PartialEq, Eq, Debug, Structural)]
pub struct VmConfig {
    pub maximum_operand_stack: usize,
    pub maximum_call_depth: usize,
    pub maximum_backward_branches_without_progress: u64,
}

/// What one slice of execution may do.
#[derive(Clone, Copy, PartialEq, Eq, Debug, Structural)]
pub struct ExecutionPolicy {
    pub allow_function_memo: bool,
    pub allow_immediate_host: bool,
    pub remaining_quantum: u32,
    pub remaining_instructions: u64,
}

/// A warning of integer arithmetic.
#[derive(Clone, Copy, PartialEq, Eq, Debug, Structural)]
pub enum IntegerArithmeticWarning {
    Overflow,
    DivideByZero,
}

/// A deviation that a compatibility profile tolerates.
#[derive(Clone, Copy, PartialEq, Eq, Debug, Structural)]
pub enum CompatibilityWarning {
    Arithmetic(IntegerArithmeticWarning),
    ExcessUserArguments,
}

/// A place in the code that a warning was reported for.
#[derive(Clone, Copy, PartialEq, Eq, Debug, Structural)]
pub struct WarningSite {
    pub generation: GenerationId,
    pub function: SymbolKey,
    pub instruction: usize,
    pub tag: u8,
}

/// A program under its generation number.
#[derive(PartialEq, Eq, Debug)]
pub struct LoadedGeneration {
    pub id: GenerationId,
    pub program: Rc<ProgramGeneration>,
}

/// The machine.
#[derive(PartialEq, Eq, Debug)]
pub struct Vm {
    pub config: VmConfig,
    pub generations: Vec<LoadedGeneration>,
    pub current_generation: GenerationId,
    pub memory: Memory,
    pub fibers: Vec<Fiber>,
    pub next_frame: u64,
    pub next_request: u64,
    pub pending_compatibility_warnings: Vec<CompatibilityWarning>,
    pub compatibility_warning_sites: Vec<WarningSite>,
    /// The fiber whose path is being recorded for replay.
    pub path_memo_owner: Option<FiberId>,
    pub active_function_memos: Vec<FrameId>,
}

/// Mathematical content of a [`Vm`].
#[verifier::ext_equal]
pub struct VmModel {
    pub config: VmConfig,
    pub generations: Seq<LoadedGeneration>,
    pub current_generation: GenerationId,
    pub store: Store,
    pub fibers: Seq<Fiber>,
    pub next_frame: u64,
    pub next_request: u64,
    pub warnings: Seq<CompatibilityWarning>,
    pub warning_sites: Seq<WarningSite>,
    pub path_memo_owner: Option<FiberId>,
    pub memo_frames: Seq<FrameId>,
}

impl View for Vm {
    type V = VmModel;

    open spec fn view(&self) -> VmModel {
        VmModel {
            config: self.config,
            generations: self.generations@,
            current_generation: self.current_generation,
            store: self.memory@,
            fibers: self.fibers@,
            next_frame: self.next_frame,
            next_request: self.next_request,
            warnings: self.pending_compatibility_warnings@,
            warning_sites: self.compatibility_warning_sites@,
            path_memo_owner: self.path_memo_owner,
            memo_frames: self.active_function_memos@,
        }
    }
}

pub open spec fn generation_is(id: GenerationId) -> spec_fn(LoadedGeneration) -> bool {
    |g: LoadedGeneration| g.id == id
}

pub open spec fn frame_is(id: FrameId) -> spec_fn(FrameModel) -> bool {
    |f: FrameModel| f.id == id
}

pub open spec fn lease_is(id: ArrayLeaseId) -> spec_fn(ArrayLease) -> bool {
    |l: ArrayLease| l.id == id
}

impl VmModel {
    /// The program of a generation.
    pub open spec fn program(self, id: GenerationId) -> Option<ProgramGeneration> {
        match lookup::first_index(self.generations, generation_is(id)) {
            Some(i) => Some(*self.generations[i].program),
            None => None,
        }
    }

    /// The machine after the recording of a fiber's path was given up.
    pub open spec fn without_path_memo(self, fiber: FiberId) -> VmModel {
        if self.path_memo_owner == Some(fiber) {
            VmModel { path_memo_owner: None, ..self }
        } else {
            self
        }
    }
}

impl Vm {
    /// The program of a generation.
    pub fn program(&self, id: GenerationId) -> (r: Option<Rc<ProgramGeneration>>)
        ensures
            match r {
                Some(p) => self@.program(id) == Some(*p),
                None => self@.program(id) is None,
            },
    {
        let mut i: usize = 0;
        while i < self.generations.len()
            invariant
                i <= self.generations.len(),
                forall|j: int| 0 <= j < i ==> !generation_is(id)(#[trigger] self.generations@[j]),
            decreases self.generations.len() - i,
        {
            if self.generations[i].id == id {
                proof {
                    lookup::lemma_first_found(self.generations@, generation_is(id), i as int);
                }
                return Some(self.generations[i].program.clone());
            }
            i = i + 1;
        }
        None
    }

    /// Gives up the recording of a fiber's path.
    pub fn invalidate_path_memo(&mut self, fiber: FiberId)
        ensures
            final(self)@ == old(self)@.without_path_memo(fiber),
    {
        if self.path_memo_owner == Some(fiber) {
            self.path_memo_owner = None;
        }
    }

    /// A number for a new frame.
    pub fn allocate_frame_id(&mut self) -> (r: FrameId)
        ensures
            r == FrameId(old(self)@.next_frame),
            final(self)@ == (VmModel {
                next_frame: old(self)@.next_frame.wrapping_add(1),
                ..old(self)@
            }),
    {
        let id: u64 = self.next_frame;
        self.next_frame = self.next_frame.wrapping_add(1);
        FrameId(id)
    }

    /// A number for a new host request.
    pub fn allocate_request_id(&mut self) -> (r: u64)
        ensures
            r == old(self)@.next_request,
            final(self)@ == (VmModel {
                next_request: old(self)@.next_request.wrapping_add(1),
                ..old(self)@
            }),
    {
        let id: u64 = self.next_request;
        self.next_request = self.next_request.wrapping_add(1);
        id
    }
}

/// The instruction under execution.
pub struct InstructionPosition<'a> {
    pub generation: GenerationId,
    pub function: SymbolKey,
    pub instruction: usize,
    /// The variable that the operand names.
    pub variable: Option<&'a crate::program::BytecodeGlobal>,
    pub opcode: crate::program::Opcode,
    pub payload: &'a [u8],
}

/// Mathematical content of an [`InstructionPosition`].
pub struct At {
    pub generation: GenerationId,
    pub function: SymbolKey,
    pub instruction: usize,
    pub variable: Option<crate::program::BytecodeGlobal>,
    pub opcode: crate::program::Opcode,
    pub payload: Seq<u8>,
}

impl<'a> View for InstructionPosition<'a> {
    type V = At;

    open spec fn view(&self) -> At {
        At {
            generation: self.generation,
            function: self.function,
            instruction: self.instruction,
            variable: match self.variable {
                Some(g) => Some(*g),
                None => None,
            },
            opcode: self.opcode,
            payload: self.payload@,
        }
    }
}

/// How a diagnostic reaches the user.
#[derive(Clone, Copy, PartialEq, Eq, Debug, Structural)]
pub enum VmDiagnosticNotification {
    LogOnly,
}

/// Names the diagnostic of a jump into a structured block.
pub const STRUCTURED_GOTO_DIAGNOSTIC_CODE: &'static str = "vm.structured_goto";

pub const STRUCTURED_GOTO_DIAGNOSTIC_MESSAGE: &'static str =
    "GOTO entered a structured block past its head";

/// What a step did.
#[derive(PartialEq, Eq, Debug)]
pub enum StepOutcome {
    Continue,
    /// Several instructions were done at once; so many beyond the one counted.
    BulkProgress(u64),
    Blocked,
    Yielded,
    DeferredNative,
    /// The running frame returns this value to its caller.
    Returned(Option<VmValue>),
    Diagnostic { code: &'static str, message: &'static str, notification: VmDiagnosticNotification },
}

/// Mathematical content of a [`StepOutcome`].
pub enum Outcome {
    Continue,
    BulkProgress(u64),
    Blocked,
    Yielded,
    DeferredNative,
    Returned(Option<Val>),
    Diagnostic { code: Seq<char>, message: Seq<char>, notification: VmDiagnosticNotification },
}

impl View for StepOutcome {
    type V = Outcome;

    open spec fn view(&self) -> Outcome {
        match self {
            StepOutcome::Continue => Outcome::Continue,
            StepOutcome::BulkProgress(n) => Outcome::BulkProgress(*n),
            StepOutcome::Blocked => Outcome::Blocked,
            StepOutcome::Yielded => Outcome::Yielded,
            StepOutcome::DeferredNative => Outcome::DeferredNative,
            StepOutcome::Returned(v) => Outcome::Returned(optional_val(*v)),
            StepOutcome::Diagnostic { code, message, notification } => Outcome::Diagnostic {
                code: code@,
                message: message@,
                notification: *notification,
            },
        }
    }
}

/// Mathematical content of what dispatching gives: nothing where another family has the operation.
pub open spec fn step_result(r: Result<Option<StepOutcome>, crate::fault::StepError>) -> Result<
    Option<Outcome>,
    crate::fault::Failure,
> {
    match r {
        Ok(Some(o)) => Ok(Some(o@)),
        Ok(None) => Ok(None),
        Err(e) => Err(e@),
    }
}

/// The diagnostic of a jump into a structured block.
pub open spec fn structured_goto() -> Outcome {
    Outcome::Diagnostic {
        code: STRUCTURED_GOTO_DIAGNOSTIC_CODE@,
        message: STRUCTURED_GOTO_DIAGNOSTIC_MESSAGE@,
        notification: VmDiagnosticNotification::LogOnly,
    }
}

} // verus!
