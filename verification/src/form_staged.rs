//! MATCH and BIT calls of an evaluation: operands are evaluated one after the other, and the array
//! is worked on between them.

use vstd::prelude::*;
use std::rc::Rc;
use crate::ast::{self, Expr, Tree};
use crate::bit_calls::{self, BitReply, BitReplyModel};
use crate::existvar::invalid;
use crate::fault::{self, Failure, StepError, Trouble, VmError, VmFaultCode};
use crate::form_methods;
use crate::form_resources;
use crate::form_support;
use crate::forms::{
    self, BitCall, BoundCall, Form, FormBitCall, FormMatch, MatchCall, MatchSpecModel, MatchStage,
    MatchState, RuntimeBoundCall, RuntimeCallSite, RuntimeFormContinuation, RuntimeFormTask, Scan,
    Task,
};
use crate::lookup;
use crate::program::{BitCallSpec, BytecodeGlobal, MatchCallSpec, ProgramGeneration};
use crate::state::{
    self, ArrayLease, ArrayLeaseOrigin, ArrayLeaseOwner, Fiber, FiberModel, FiberState, Store, Vm,
    VmModel,
};
use crate::value::{
    self, ArrayLeaseId, BytecodeType, FiberId, Place, PlaceDescriptor, SymbolKey, Val, VmValue,
};

verus! {

/// A MATCH call is the one that its plan has bound.
pub open spec fn match_planned(
    form: Form,
    program: ProgramGeneration,
    spec: MatchSpecModel,
    site: RuntimeCallSite,
    arguments: Seq<Option<Tree>>,
) -> bool {
    form.bound(site) == Some(BoundCall::Match(spec)) && form.has_arguments(program, site, arguments)
}

/// A MATCH call may start.
pub open spec fn match_opened(
    vm: VmModel,
    form: Form,
    spec: MatchSpecModel,
    site: RuntimeCallSite,
    arguments: Seq<Option<Tree>>,
) -> Result<(), Failure> {
    match vm.program(form.generation) {
        None => Err(Failure::of(VmFaultCode::MissingSymbol, "MATCH generation missing"@)),
        Some(program) => if match_planned(form, program, spec, site, arguments) {
            Ok(())
        } else {
            Err(Failure::invalid("MATCH plan binding differs"@))
        },
    }
}

pub open spec fn scan_result(r: Result<MatchState, StepError>) -> Result<Scan, Failure> {
    match r {
        Ok(s) => Ok(s@),
        Err(e) => Err(e@),
    }
}

/// A MATCH call whose array was captured waits for the start of the range.
pub open spec fn match_started(
    form: Form,
    spec: MatchSpecModel,
    site: RuntimeCallSite,
    arguments: Seq<Option<Tree>>,
    captured: Result<Scan, Failure>,
) -> (Form, Result<(), Failure>) {
    match captured {
        Err(e) => (form, Err(e)),
        Ok(state) => {
            let call = MatchCall {
                site,
                arguments,
                spec,
                state,
                value_depth: form.values.len() as usize,
            };
            let opened = form.with_task(Task::Match(MatchStage::Begin, call));
            (
                match form_methods::nth(arguments, 2) {
                    Some(t) => opened.with_task(Task::Evaluate(t)),
                    None => opened.with_value(Val::Integer(0)),
                },
                Ok(()),
            )
        },
    }
}

/// The number of values that a stage of a MATCH call takes.
pub open spec fn match_needs(stage: MatchStage, call: MatchCall) -> nat {
    match stage {
        MatchStage::Begin => 1,
        MatchStage::End => if form_methods::nth(call.arguments, 3) is Some {
            1
        } else {
            0
        },
        MatchStage::Needle => 1,
        MatchStage::Scan => 0,
    }
}

pub open spec fn match_depth(stage: MatchStage) -> Failure {
    Failure::invalid(
        match stage {
            MatchStage::Begin => "MATCH begin value depth differs"@,
            MatchStage::End => "MATCH end value depth differs"@,
            MatchStage::Needle => "MATCH needle value depth differs"@,
            MatchStage::Scan => "MATCH scan value depth differs"@,
        },
    )
}

/// The value that a stage of a MATCH call takes.
pub open spec fn match_value(form: Form, stage: MatchStage, call: MatchCall) -> (
    Form,
    Result<Option<Val>, Failure>,
) {
    let needs = match_needs(stage, call);
    if form.values.len() != call.value_depth + needs {
        (form, Err(match_depth(stage)))
    } else if needs == 0 {
        (form, Ok(None))
    } else {
        (Form { values: form.values.drop_last(), ..form }, Ok(Some(form.values.last())))
    }
}

/// A MATCH call goes on with what its stage came to; `done` tells a scan that has ended.
pub open spec fn match_resumed(
    form: Form,
    stage: MatchStage,
    call: MatchCall,
    state: Result<Scan, Failure>,
    done: bool,
) -> (Form, Result<(), Failure>) {
    match state {
        Err(e) => (form, Err(e)),
        Ok(state) => {
            let call = MatchCall { state, ..call };
            match stage {
                MatchStage::Begin => {
                    let next = form.with_task(Task::Match(MatchStage::End, call));
                    (
                        match form_methods::nth(call.arguments, 3) {
                            Some(t) => next.with_task(Task::Evaluate(t)),
                            None => next,
                        },
                        Ok(()),
                    )
                },
                MatchStage::End => match form_methods::nth(call.arguments, 1) {
                    None => (form, Err(Failure::invalid("MATCH needle expression missing"@))),
                    Some(t) => (
                        form.with_task(Task::Match(MatchStage::Needle, call)).with_task(
                            Task::Evaluate(t),
                        ),
                        Ok(()),
                    ),
                },
                MatchStage::Needle => (form.with_task(Task::Match(MatchStage::Scan, call)), Ok(())),
                MatchStage::Scan => if done {
                    (form.with_value(Val::Integer(state.count)), Ok(()))
                } else {
                    (form.with_task(Task::Match(MatchStage::Scan, call)), Ok(()))
                },
            }
        },
    }
}

pub open spec fn taken_result(r: Result<Option<VmValue>, StepError>) -> Result<
    Option<Val>,
    Failure,
> {
    match r {
        Ok(v) => Ok(state::optional_val(v)),
        Err(e) => Err(e@),
    }
}

fn depth_differs(stage: MatchStage) -> (r: StepError)
    ensures
        r@ == match_depth(stage),
{
    invalid(
        match stage {
            MatchStage::Begin => "MATCH begin value depth differs",
            MatchStage::End => "MATCH end value depth differs",
            MatchStage::Needle => "MATCH needle value depth differs",
            MatchStage::Scan => "MATCH scan value depth differs",
        },
    )
}

impl RuntimeFormContinuation {
    fn is_match_planned(
        &self,
        program: &ProgramGeneration,
        spec: &MatchCallSpec,
        site: RuntimeCallSite,
        arguments: &Vec<Option<Rc<Expr>>>,
    ) -> (r: bool)
        ensures
            r == match_planned(self@, *program, spec@, site, ast::argument_trees(arguments@)),
    {
        let bound = match self.lookup_bound_call(site) {
            Some(RuntimeBoundCall::Match(m)) => forms::same_match(m, spec),
            _ => false,
        };
        bound && self.validate_call_arguments(program, site, arguments)
    }

    /// Checks that a MATCH call may start; its array is captured next.
    pub fn schedule_match(
        &self,
        vm: &Vm,
        spec: &MatchCallSpec,
        arguments: &Vec<Option<Rc<Expr>>>,
        site: RuntimeCallSite,
    ) -> (r: Result<(), StepError>)
        ensures
            form_resources::unit_result(r) == match_opened(
                vm@,
                self@,
                spec@,
                site,
                ast::argument_trees(arguments@),
            ),
    {
        match vm.program(self.generation) {
            None => Err(StepError::new(VmFaultCode::MissingSymbol, "MATCH generation missing")),
            Some(program) => {
                if self.is_match_planned(&program, spec, site, arguments) {
                    Ok(())
                } else {
                    Err(invalid("MATCH plan binding differs"))
                }
            },
        }
    }

    /// Lets a MATCH call whose array was captured wait for the start of the range.
    pub fn start_match(
        &mut self,
        spec: Rc<MatchCallSpec>,
        arguments: Vec<Option<Rc<Expr>>>,
        site: RuntimeCallSite,
        captured: Result<MatchState, StepError>,
    ) -> (r: Result<(), StepError>)
        ensures
            (final(self)@, form_resources::unit_result(r)) == match_started(
                old(self)@,
                spec@,
                site,
                ast::argument_trees(arguments@),
                scan_result(captured),
            ),
    {
        let state = match captured {
            Err(e) => {
                return Err(e);
            },
            Ok(s) => s,
        };
        let begin = form_methods::nth_argument(&arguments, 2);
        let value_depth: usize = self.values.len();
        let call = FormMatch { site, arguments, spec, state, value_depth };
        self.push_task(RuntimeFormTask::Match(MatchStage::Begin, call));
        match begin {
            Some(e) => {
                self.push_task(RuntimeFormTask::Evaluate(e));
            },
            None => {
                self.push_value(VmValue::Integer(0));
            },
        }
        Ok(())
    }

    /// Takes the value that a stage of a MATCH call needs.
    pub fn take_match_value(&mut self, stage: MatchStage, call: &FormMatch) -> (r: Result<
        Option<VmValue>,
        StepError,
    >)
        ensures
            (final(self)@, taken_result(r)) == match_value(old(self)@, stage, call@),
    {
        let ghost form = self@;
        assert(form.values.len() == self.values@.len());
        let needs = match stage {
            MatchStage::Begin => true,
            MatchStage::End => form_methods::nth_argument(&call.arguments, 3).is_some(),
            MatchStage::Needle => true,
            MatchStage::Scan => false,
        };
        let have: usize = self.values.len();
        let fits = if needs {
            have > 0 && have - 1 == call.value_depth
        } else {
            have == call.value_depth
        };
        if !fits {
            return Err(depth_differs(stage));
        }
        if !needs {
            return Ok(None);
        }
        match self.values.pop() {
            Some(v) => {
                proof {
                    assert(form.values.last() == v@);
                    assert(value::vals(self.values@) =~= form.values.drop_last());
                }
                Ok(Some(v))
            },
            None => Err(depth_differs(stage)),
        }
    }

    /// Goes on with a MATCH call once its stage is done.
    pub fn resume_match(
        &mut self,
        stage: MatchStage,
        call: FormMatch,
        state: Result<MatchState, StepError>,
        done: bool,
    ) -> (r: Result<(), StepError>)
        ensures
            (final(self)@, form_resources::unit_result(r)) == match_resumed(
                old(self)@,
                stage,
                call@,
                scan_result(state),
                done,
            ),
    {
        let state = match state {
            Err(e) => {
                return Err(e);
            },
            Ok(s) => s,
        };
        let mut call = call;
        call.state = state;
        match stage {
            MatchStage::Begin => {
                let end = form_methods::nth_argument(&call.arguments, 3);
                self.push_task(RuntimeFormTask::Match(MatchStage::End, call));
                match end {
                    Some(e) => {
                        self.push_task(RuntimeFormTask::Evaluate(e));
                    },
                    None => {},
                }
            },
            MatchStage::End => match form_methods::nth_argument(&call.arguments, 1) {
                None => {
                    return Err(invalid("MATCH needle expression missing"));
                },
                Some(e) => {
                    self.push_task(RuntimeFormTask::Match(MatchStage::Needle, call));
                    self.push_task(RuntimeFormTask::Evaluate(e));
                },
            },
            MatchStage::Needle => {
                self.push_task(RuntimeFormTask::Match(MatchStage::Scan, call));
            },
            MatchStage::Scan => {
                if done {
                    self.push_value(VmValue::Integer(call.state.count));
                } else {
                    self.push_task(RuntimeFormTask::Match(MatchStage::Scan, call));
                }
            },
        }
        Ok(())
    }
}

/// What the scanner says of a stored MATCH call: the arrays it would capture now, and whether its
/// state is good.
#[derive(Clone, Copy, PartialEq, Eq, Debug, Structural)]
pub struct MatchFact {
    pub input: SymbolKey,
    pub output: Option<SymbolKey>,
    pub valid: bool,
}

/// The phase of the scan in a stage.
pub open spec fn stage_phase(stage: MatchStage) -> u8 {
    match stage {
        MatchStage::Begin => 0,
        MatchStage::End => 1,
        MatchStage::Needle => 2,
        MatchStage::Scan => 2,
    }
}

/// A stored MATCH call at a position of the work is in a state that it can be in.
pub open spec fn match_valid(
    form: Form,
    program: ProgramGeneration,
    at: int,
    stage: MatchStage,
    call: MatchCall,
    fact: Option<MatchFact>,
) -> bool {
    &&& match_planned(form, program, call.spec, call.site, call.arguments)
    &&& match fact {
        None => false,
        Some(f) => {
            &&& call.value_depth <= form.values.len()
            &&& f.valid
            &&& call.state.phase == stage_phase(stage)
            &&& (call.state.needle is Some) == (stage is Scan)
            &&& call.state.input == f.input
            &&& call.state.output == f.output
            &&& call.state.needle_type == call.spec.needle
            &&& stage is Scan ==> at + 1 == form.work.len() && form.values.len()
                == call.value_depth && form.awaiting is None
        },
    }
}

pub open spec fn fact_at(facts: Seq<Option<MatchFact>>, i: int) -> Option<MatchFact> {
    if 0 <= i < facts.len() {
        facts[i]
    } else {
        None
    }
}

/// Every stored MATCH call is in a state that it can be in. `facts` says for each position of the
/// work what the scanner says of it.
pub open spec fn matches_valid(vm: VmModel, form: Form, facts: Seq<Option<MatchFact>>) -> bool {
    match vm.program(form.generation) {
        None => false,
        Some(program) => forall|i: int|
            0 <= i < form.work.len() ==> match #[trigger] form.work[i] {
                Task::Match(stage, call) => match_valid(
                    form,
                    program,
                    i,
                    stage,
                    call,
                    fact_at(facts, i),
                ),
                _ => true,
            },
    }
}

impl RuntimeFormContinuation {
    fn is_match_valid(
        &self,
        program: &ProgramGeneration,
        at: usize,
        stage: MatchStage,
        call: &FormMatch,
        fact: Option<MatchFact>,
    ) -> (r: bool)
        requires
            at < self@.work.len(),
        ensures
            r == match_valid(self@, *program, at as int, stage, call@, fact),
    {
        if !self.is_match_planned(program, &call.spec, call.site, &call.arguments) {
            return false;
        }
        let fact = match fact {
            None => {
                return false;
            },
            Some(f) => f,
        };
        let phase: u8 = match stage {
            MatchStage::Begin => 0,
            MatchStage::End => 1,
            MatchStage::Needle => 2,
            MatchStage::Scan => 2,
        };
        let scanning = match stage {
            MatchStage::Scan => true,
            _ => false,
        };
        assert(self@.work.len() == self.work@.len());
        let last: usize = self.work.len() - 1;
        call.value_depth <= self.values.len() && fact.valid && call.state.phase == phase
            && call.state.needle.is_some() == scanning && call.state.input == fact.input
            && call.state.output == fact.output && call.state.needle_type == call.spec.needle && (
        !scanning || (at == last && self.values.len() == call.value_depth
            && self.awaiting_user_call.is_none()))
    }

    /// Tells whether every stored MATCH call is in a state that it can be in.
    #[verifier::loop_isolation(false)]
    pub fn valid_match_tasks(&self, vm: &Vm, facts: &Vec<Option<MatchFact>>) -> (r: bool)
        ensures
            r == matches_valid(vm@, self@, facts@),
    {
        let ghost form = self@;
        let program = match vm.program(self.generation) {
            None => {
                return false;
            },
            Some(p) => p,
        };
        let mut i: usize = 0;
        assert(form.work.len() == self.work@.len());
        while i < self.work.len()
            invariant
                i <= self.work.len(),
                forall|j: int|
                    0 <= j < i ==> match #[trigger] form.work[j] {
                        Task::Match(stage, call) => match_valid(
                            form,
                            *program,
                            j,
                            stage,
                            call,
                            fact_at(facts@, j),
                        ),
                        _ => true,
                    },
            decreases self.work.len() - i,
        {
            assert(form.work[i as int] == self.work@[i as int]@);
            match &self.work[i] {
                RuntimeFormTask::Match(stage, call) => {
                    let fact = if i < facts.len() {
                        facts[i]
                    } else {
                        None
                    };
                    if !self.is_match_valid(&program, i, *stage, call, fact) {
                        return false;
                    }
                },
                _ => {},
            }
            i = i + 1;
        }
        true
    }
}

/// A BIT call is the one that its plan has bound.
pub open spec fn bit_planned(
    vm: VmModel,
    form: Form,
    spec: BitCallSpec,
    site: RuntimeCallSite,
    source: Seq<Option<Tree>>,
) -> bool {
    match vm.program(form.generation) {
        None => false,
        Some(program) => form.bound(site) == Some(BoundCall::Bit(spec)) && form.has_arguments(
            program,
            site,
            source,
        ),
    }
}

/// A BIT call is scheduled.
pub open spec fn bit_scheduled(
    vm: VmModel,
    form: Form,
    spec: BitCallSpec,
    site: RuntimeCallSite,
    source: Seq<Option<Tree>>,
) -> (Form, Result<(), Failure>) {
    if bit_planned(vm, form, spec, site, source) {
        (form.with_task(Task::BitCapture(spec, site, source)), Ok(()))
    } else {
        (form, Err(Failure::invalid("BIT plan binding differs"@)))
    }
}

/// The leases that the stored BIT calls of an evaluation hold.
pub open spec fn held_leases(work: Seq<Task>) -> Seq<ArrayLeaseId>
    decreases work.len(),
{
    if work.len() == 0 {
        Seq::empty()
    } else {
        match work.last() {
            Task::BitFinish(call) => held_leases(work.drop_last()).push(call.lease),
            _ => held_leases(work.drop_last()),
        }
    }
}

/// Where the array of a BIT call is captured.
pub struct BitToken {
    pub place: Place,
    pub slot: u64,
}

/// The array of a BIT call is to be captured: leases that nothing holds are given back first.
pub open spec fn bit_opened(
    vm: VmModel,
    fiber: FiberModel,
    form: Form,
    spec: BitCallSpec,
    site: RuntimeCallSite,
    source: Seq<Option<Tree>>,
    references: Seq<ArrayLeaseId>,
) -> (VmModel, Form, Result<BitToken, Failure>) {
    if !bit_planned(vm, form, spec, site, source) {
        (vm, form, Err(Failure::invalid("BIT capture plan differs"@)))
    } else if form.next_bit_call == u64::MAX {
        (
            vm,
            form,
            Err(form_resources::resource_failure("BIT form lease identities exhausted"@)),
        )
    } else {
        let slot = form.next_bit_call;
        (
            bit_calls::pruned(vm, Some(fiber), held_leases(form.work) + references),
            Form { next_bit_call: (slot + 1) as u64, ..form },
            Ok(
                BitToken {
                    place: Place {
                        variable: spec.input,
                        fiber: Some(fiber.id),
                        frame: Some(form.frame),
                        ..state::nowhere()
                    },
                    slot,
                },
            ),
        )
    }
}

/// Tasks that evaluate the arguments that are there, the first one on top.
pub open spec fn present_tasks(arguments: Seq<Option<Tree>>) -> Seq<Task>
    decreases arguments.len(),
{
    if arguments.len() == 0 {
        Seq::empty()
    } else {
        match arguments[0] {
            Some(t) => present_tasks(arguments.skip(1)).push(Task::Evaluate(t)),
            None => present_tasks(arguments.skip(1)),
        }
    }
}

/// A BIT call whose array was captured evaluates its other arguments.
pub open spec fn bit_started(
    form: Form,
    slot: u64,
    spec: BitCallSpec,
    site: RuntimeCallSite,
    source: Seq<Option<Tree>>,
    lease: Result<ArrayLeaseId, Trouble>,
) -> (Form, Result<(), Failure>) {
    match lease {
        Err(e) => (form, Err(fault::mapped(e))),
        Ok(lease) => {
            let call = BitCall {
                slot,
                spec,
                site,
                source,
                lease,
                value_depth: form.values.len() as usize,
                work: None,
            };
            (
                form_support::with_tasks(
                    form.with_task(Task::BitFinish(call)),
                    present_tasks(form_methods::from(source, 1)),
                ),
                Ok(()),
            )
        },
    }
}

/// The operands of a BIT call and the length of its array.
pub open spec fn bit_operands(vm: VmModel, form: Form, call: BitCall) -> Result<
    (Seq<i64>, u64),
    Failure,
> {
    if form.values.len() != call.value_depth + bit_calls::present_count(
        call.spec,
        call.spec.tail_count as nat,
    ) {
        Err(Failure::invalid("BIT form operand depth differs"@))
    } else {
        match bit_calls::integers_from(form.values, call.value_depth as int) {
            None => Err(Failure::invalid("BIT form tail is not Integer"@)),
            Some(values) => match lookup::first_index(
                vm.store.leases,
                state::lease_is(call.lease),
            ) {
                None => Err(Failure::invalid("BIT form lease missing"@)),
                Some(i) => Ok((values, vm.store.leases[i].length)),
            },
        }
    }
}

/// A BIT call goes on with what the work on a cell came to.
pub open spec fn bit_resumed(vm: VmModel, form: Form, call: BitCall, reply: BitReplyModel) -> (
    VmModel,
    Form,
    Result<(), Failure>,
) {
    match reply {
        BitReplyModel::NotStarted(e) => (vm, form, Err(fault::mapped(e))),
        BitReplyModel::Misfit => (
            vm,
            form,
            Err(Failure::invalid("BIT form work range differs"@)),
        ),
        BitReplyModel::Failed(e) => (vm, form, Err(fault::mapped(e))),
        BitReplyModel::Complete { value, .. } => (
            VmModel {
                store: Store {
                    leases: bit_calls::kept(
                        vm.store.leases,
                        bit_calls::other_than(call.lease),
                    ),
                    ..vm.store
                },
                ..vm
            },
            Form { values: form.values.take(call.value_depth as int), ..form }.with_value(
                Val::Integer(value),
            ),
            Ok(()),
        ),
        BitReplyModel::Continue { work, .. } => (
            vm,
            form.with_task(Task::BitFinish(BitCall { work: Some(work), ..call })),
            Ok(()),
        ),
    }
}

pub open spec fn token_result(r: Result<(PlaceDescriptor, u64), StepError>) -> Result<
    BitToken,
    Failure,
> {
    match r {
        Ok((place, slot)) => Ok(BitToken { place: place@, slot }),
        Err(e) => Err(e@),
    }
}

pub open spec fn operands_result(r: Result<(Vec<i64>, u64), StepError>) -> Result<
    (Seq<i64>, u64),
    Failure,
> {
    match r {
        Ok((values, length)) => Ok((values@, length)),
        Err(e) => Err(e@),
    }
}

proof fn lemma_present_tasks(arguments: Seq<Option<Tree>>, k: int)
    requires
        0 <= k < arguments.len(),
    ensures
        present_tasks(arguments.skip(k)) == match arguments[k] {
            Some(t) => present_tasks(arguments.skip(k + 1)).push(Task::Evaluate(t)),
            None => present_tasks(arguments.skip(k + 1)),
        },
{
    assert(arguments.skip(k).skip(1) =~= arguments.skip(k + 1));
    assert(arguments.skip(k)[0] == arguments[k]);
}

impl RuntimeFormContinuation {
    /// Tells whether a BIT call is the one that its plan has bound.
    pub fn valid_bit_capture(
        &self,
        vm: &Vm,
        spec: BitCallSpec,
        site: RuntimeCallSite,
        source: &Vec<Option<Rc<Expr>>>,
    ) -> (r: bool)
        ensures
            r == bit_planned(vm@, self@, spec, site, ast::argument_trees(source@)),
    {
        let program = match vm.program(self.generation) {
            None => {
                return false;
            },
            Some(p) => p,
        };
        let bound = match self.lookup_bound_call(site) {
            Some(RuntimeBoundCall::Bit(b)) => *b == spec,
            _ => false,
        };
        bound && self.validate_call_arguments(&program, site, source)
    }

    /// Schedules a BIT call.
    pub fn schedule_bit(
        &mut self,
        vm: &Vm,
        spec: BitCallSpec,
        source: Vec<Option<Rc<Expr>>>,
        site: RuntimeCallSite,
    ) -> (r: Result<(), StepError>)
        ensures
            (final(self)@, form_resources::unit_result(r)) == bit_scheduled(
                vm@,
                old(self)@,
                spec,
                site,
                ast::argument_trees(source@),
            ),
    {
        if !self.valid_bit_capture(vm, spec, site, &source) {
            return Err(invalid("BIT plan binding differs"));
        }
        self.push_task(RuntimeFormTask::BitCapture { spec, site, source });
        Ok(())
    }

    /// The leases that the stored BIT calls hold.
    pub fn bit_leases(&self) -> (r: Vec<ArrayLeaseId>)
        ensures
            r@ == held_leases(self@.work),
    {
        let ghost work = self@.work;
        let mut out: Vec<ArrayLeaseId> = Vec::new();
        let mut i: usize = 0;
        assert(work.take(0) =~= Seq::<Task>::empty());
        while i < self.work.len()
            invariant
                i <= self.work.len(),
                work == self@.work,
                out@ == held_leases(work.take(i as int)),
            decreases self.work.len() - i,
        {
            proof {
                assert(work[i as int] == self.work@[i as int]@);
                assert(work.take(i + 1).drop_last() =~= work.take(i as int));
            }
            match &self.work[i] {
                RuntimeFormTask::BitFinish(call) => {
                    out.push(call.lease);
                },
                _ => {},
            }
            i = i + 1;
        }
        assert(work.take(i as int) =~= work);
        out
    }

    /// Opens a BIT call; the array at the place is captured next. `references` are the
    /// reference leases of the fibers and of the evaluation.
    pub fn capture_bit(
        &mut self,
        vm: &mut Vm,
        fiber: &Fiber,
        spec: BitCallSpec,
        site: RuntimeCallSite,
        source: &Vec<Option<Rc<Expr>>>,
        references: &Vec<ArrayLeaseId>,
    ) -> (r: Result<(PlaceDescriptor, u64), StepError>)
        ensures
            (final(vm)@, final(self)@, token_result(r)) == bit_opened(
                old(vm)@,
                fiber@,
                old(self)@,
                spec,
                site,
                ast::argument_trees(source@),
                references@,
            ),
    {
        if !self.valid_bit_capture(vm, spec, site, source) {
            return Err(invalid("BIT capture plan differs"));
        }
        let slot: u64 = self.next_bit_call;
        if slot == u64::MAX {
            return Err(form_resources::resource_limit("BIT form lease identities exhausted"));
        }
        self.next_bit_call = slot + 1;
        let mut live = self.bit_leases();
        let ghost own = live@;
        let mut i: usize = 0;
        assert(own + references@.take(0) =~= own);
        while i < references.len()
            invariant
                i <= references.len(),
                live@ == own + references@.take(i as int),
            decreases references.len() - i,
        {
            live.push(references[i]);
            i = i + 1;
            assert(live@ =~= own + references@.take(i as int));
        }
        assert(references@.take(i as int) =~= references@);
        vm.prune_with(fiber, &live);
        let mut token = PlaceDescriptor::of_variable(spec.input);
        token.fiber = Some(fiber.id);
        token.frame = Some(self.frame);
        Ok((token, slot))
    }

    /// Lets a BIT call whose array was captured evaluate its other arguments.
    pub fn start_bit(
        &mut self,
        slot: u64,
        spec: BitCallSpec,
        site: RuntimeCallSite,
        source: Vec<Option<Rc<Expr>>>,
        lease: Result<ArrayLeaseId, VmError>,
    ) -> (r: Result<(), StepError>)
        ensures
            (final(self)@, form_resources::unit_result(r)) == bit_started(
                old(self)@,
                slot,
                spec,
                site,
                ast::argument_trees(source@),
                bit_calls::lease_result(lease),
            ),
    {
        let lease = match lease {
            Err(e) => {
                return Err(fault::map_vm_error(e));
            },
            Ok(l) => l,
        };
        let ghost whole = ast::argument_trees(source@);
        let tail = ast::copy_arguments(&source, 1);
        proof {
            ast::lemma_argument_trees(source@);
            assert(ast::argument_trees(tail@) == form_methods::from(whole, 1));
        }
        let value_depth: usize = self.values.len();
        let call = FormBitCall { slot, spec, site, source, lease, value_depth, work: None };
        self.push_task(RuntimeFormTask::BitFinish(call));
        self.push_present(&tail);
        Ok(())
    }

    /// Schedules the arguments that are there, so that the first one is evaluated first.
    pub(crate) fn push_present(&mut self, arguments: &Vec<Option<Rc<Expr>>>)
        ensures
            final(self)@ == form_support::with_tasks(
                old(self)@,
                present_tasks(ast::argument_trees(arguments@)),
            ),
    {
        let ghost all = ast::argument_trees(arguments@);
        let ghost start = self@;
        proof {
            ast::lemma_argument_trees(arguments@);
            assert(all.skip(all.len() as int) =~= Seq::<Option<Tree>>::empty());
            assert(start.work + Seq::<Task>::empty() =~= start.work);
        }
        let mut k: usize = arguments.len();
        while k > 0
            invariant
                k <= arguments.len(),
                all == ast::argument_trees(arguments@),
                all.len() == arguments@.len(),
                forall|j: int|
                    0 <= j < arguments@.len() ==> #[trigger] all[j] == ast::argument_tree(
                        arguments@[j],
                    ),
                self@ == form_support::with_tasks(start, present_tasks(all.skip(k as int))),
            decreases k,
        {
            k = k - 1;
            proof {
                lemma_present_tasks(all, k as int);
            }
            match &arguments[k] {
                Some(e) => {
                    self.push_task(RuntimeFormTask::Evaluate(e.clone()));
                },
                None => {},
            }
            assert(self@.work =~= start.work + present_tasks(all.skip(k as int)));
        }
        assert(all.skip(0) =~= all);
    }

    /// The operands of a BIT call and the length of its array; a cell is worked on next.
    pub fn finish_bit(&self, vm: &Vm, call: &FormBitCall) -> (r: Result<(Vec<i64>, u64), StepError>)
        ensures
            operands_result(r) == bit_operands(vm@, self@, call@),
    {
        assert(self@.values.len() == self.values@.len());
        let count: usize = bit_calls::count_present(call.spec);
        let have: usize = self.values.len();
        if have < count || have - count != call.value_depth {
            return Err(invalid("BIT form operand depth differs"));
        }
        let values = match bit_calls::read_integers(&self.values, call.value_depth) {
            None => {
                return Err(invalid("BIT form tail is not Integer"));
            },
            Some(v) => v,
        };
        match vm.find_lease(call.lease) {
            None => Err(invalid("BIT form lease missing")),
            Some(lease) => Ok((values, lease.length)),
        }
    }

    /// Goes on with a BIT call once a cell was worked on.
    pub fn resume_bit(&mut self, vm: &mut Vm, call: FormBitCall, reply: BitReply) -> (r: Result<
        (),
        StepError,
    >)
        requires
            call@.value_depth <= old(self)@.values.len(),
        ensures
            (final(vm)@, final(self)@, form_resources::unit_result(r)) == bit_resumed(
                old(vm)@,
                old(self)@,
                call@,
                reply@,
            ),
    {
        let ghost form = self@;
        match reply {
            BitReply::NotStarted(e) => Err(fault::map_vm_error(e)),
            BitReply::Misfit => Err(invalid("BIT form work range differs")),
            BitReply::Failed(e) => Err(fault::map_vm_error(e)),
            BitReply::Complete { value, .. } => {
                assert(form.values.len() == self.values@.len());
                self.values.truncate(call.value_depth);
                proof {
                    assert(value::vals(self.values@) =~= form.values.take(
                        call.value_depth as int,
                    ));
                }
                self.push_value(VmValue::Integer(value));
                bit_calls::release_lease(&mut vm.memory.array_leases, call.lease);
                Ok(())
            },
            BitReply::Continue { work, .. } => {
                let mut call = call;
                call.work = Some(work);
                self.push_task(RuntimeFormTask::BitFinish(call));
                Ok(())
            },
        }
    }
}

pub open spec fn owner_of(form: Form, fiber: FiberId, slot: u64) -> ArrayLeaseOwner {
    ArrayLeaseOwner {
        fiber,
        frame: form.frame,
        generation: form.generation,
        function: form.function,
        origin: ArrayLeaseOrigin::RuntimeForm { instruction: form.instruction, slot },
    }
}

/// The leases that the stored BIT calls hold, with their owners.
pub open spec fn lease_owners(form: Form, work: Seq<Task>, fiber: FiberId) -> Seq<
    (ArrayLeaseId, ArrayLeaseOwner),
>
    decreases work.len(),
{
    if work.len() == 0 {
        Seq::empty()
    } else {
        match work.last() {
            Task::BitFinish(call) => lease_owners(form, work.drop_last(), fiber).push(
                (call.lease, owner_of(form, fiber, call.slot)),
            ),
            _ => lease_owners(form, work.drop_last(), fiber),
        }
    }
}

pub open spec fn fiber_is(id: FiberId) -> spec_fn(Fiber) -> bool {
    |f: Fiber| f.id == id
}

pub open spec fn runs(fibers: Seq<Fiber>, id: FiberId) -> bool {
    match lookup::first_index(fibers, fiber_is(id)) {
        Some(i) => fibers[i].state is Runnable,
        None => false,
    }
}

/// A stored BIT call is in a state that it can be in. `progress` holds the leases whose work fits
/// its operands.
pub open spec fn bit_valid(vm: VmModel, form: Form, call: BitCall, progress: Seq<ArrayLeaseId>) -> bool {
    &&& bit_planned(vm, form, call.spec, call.site, call.source)
    &&& call.slot != 0
    &&& call.slot < form.next_bit_call
    &&& call.value_depth <= form.values.len()
    &&& call.spec.tail_count <= 3
    &&& match lookup::first_index(vm.store.leases, state::lease_is(call.lease)) {
        None => false,
        Some(i) => {
            let lease = vm.store.leases[i];
            let program = vm.program(form.generation)->0;
            &&& lease.input == call.spec.input
            &&& program.snake_data_apis
            &&& exists|g: int|
                0 <= g < program.globals@.len() && is_bit_input(
                    #[trigger] program.globals@[g],
                    call.spec.input,
                )
            &&& call.work is Some ==> {
                &&& form.awaiting is None
                &&& runs(vm.fibers, lease.owner.fiber)
                &&& bit_calls::integers_from(form.values, call.value_depth as int) is Some
                &&& progress.contains(call.lease)
            }
        },
    }
}

/// A variable that a BIT call can work on.
pub open spec fn is_bit_input(g: BytecodeGlobal, key: SymbolKey) -> bool {
    g.key == key && g.mutable && g.value_type is Integer && g.dimensions@.len() == 1
}

fn is_running(fibers: &Vec<Fiber>, id: FiberId) -> (r: bool)
    ensures
        r == runs(fibers@, id),
{
    let ghost p = fiber_is(id);
    let mut i: usize = 0;
    while i < fibers.len()
        invariant
            i <= fibers.len(),
            p == fiber_is(id),
            forall|j: int| 0 <= j < i ==> !p(#[trigger] fibers@[j]),
        decreases fibers.len() - i,
    {
        if fibers[i].id == id {
            proof {
                lookup::lemma_first_found(fibers@, p, i as int);
            }
            return match &fibers[i].state {
                FiberState::Runnable => true,
                _ => false,
            };
        }
        i = i + 1;
    }
    proof {
        lookup::lemma_first_none(fibers@, p);
    }
    false
}

fn has_bit_input(program: &ProgramGeneration, key: SymbolKey) -> (r: bool)
    ensures
        r == (exists|g: int|
            0 <= g < program.globals@.len() && is_bit_input(#[trigger] program.globals@[g], key)),
{
    let mut i: usize = 0;
    while i < program.globals.len()
        invariant
            i <= program.globals.len(),
            forall|g: int| 0 <= g < i ==> !is_bit_input(#[trigger] program.globals@[g], key),
        decreases program.globals.len() - i,
    {
        let g = &program.globals[i];
        if g.key == key && g.mutable && g.value_type == BytecodeType::Integer && g.dimensions.len()
            == 1 {
            assert(is_bit_input(program.globals@[i as int], key));
            return true;
        }
        i = i + 1;
    }
    false
}

fn lists_lease(s: &Vec<ArrayLeaseId>, id: ArrayLeaseId) -> (r: bool)
    ensures
        r == s@.contains(id),
{
    let mut i: usize = 0;
    while i < s.len()
        invariant
            i <= s.len(),
            forall|j: int| 0 <= j < i ==> s@[j] != id,
        decreases s.len() - i,
    {
        if s[i] == id {
            assert(s@[i as int] == id);
            return true;
        }
        i = i + 1;
    }
    false
}

impl RuntimeFormContinuation {
    /// The leases that the stored BIT calls hold, with their owners.
    pub fn bit_owners(&self, fiber: FiberId) -> (r: Vec<(ArrayLeaseId, ArrayLeaseOwner)>)
        ensures
            r@ == lease_owners(self@, self@.work, fiber),
    {
        let ghost form = self@;
        let ghost work = form.work;
        let mut out: Vec<(ArrayLeaseId, ArrayLeaseOwner)> = Vec::new();
        let mut i: usize = 0;
        assert(work.take(0) =~= Seq::<Task>::empty());
        while i < self.work.len()
            invariant
                i <= self.work.len(),
                form == self@,
                work == form.work,
                out@ == lease_owners(form, work.take(i as int), fiber),
            decreases self.work.len() - i,
        {
            proof {
                assert(work[i as int] == self.work@[i as int]@);
                assert(work.take(i + 1).drop_last() =~= work.take(i as int));
            }
            match &self.work[i] {
                RuntimeFormTask::BitFinish(call) => {
                    let owner = ArrayLeaseOwner {
                        fiber,
                        frame: self.frame,
                        generation: self.generation,
                        function: self.function,
                        origin: ArrayLeaseOrigin::RuntimeForm {
                            instruction: self.instruction,
                            slot: call.slot,
                        },
                    };
                    out.push((call.lease, owner));
                },
                _ => {},
            }
            i = i + 1;
        }
        assert(work.take(i as int) =~= work);
        out
    }

    /// Tells whether a stored BIT call is in a state that it can be in.
    pub fn valid_bit_task(&self, vm: &Vm, call: &FormBitCall, progress: &Vec<ArrayLeaseId>) -> (r:
        bool)
        ensures
            r == bit_valid(vm@, self@, call@, progress@),
    {
        if !self.valid_bit_capture(vm, call.spec, call.site, &call.source) || call.slot == 0
            || call.slot >= self.next_bit_call || call.value_depth > self.values.len()
            || call.spec.tail_count > 3 {
            return false;
        }
        let lease = match vm.find_lease(call.lease) {
            None => {
                return false;
            },
            Some(l) => l,
        };
        let program = match vm.program(self.generation) {
            None => {
                return false;
            },
            Some(p) => p,
        };
        if lease.input != call.spec.input || !program.snake_data_apis || !has_bit_input(
            &program,
            call.spec.input,
        ) {
            return false;
        }
        match call.work {
            None => true,
            Some(_) => {
                if self.awaiting_user_call.is_some() || !is_running(
                    &vm.fibers,
                    lease.owner.fiber,
                ) {
                    return false;
                }
                assert(self@.values.len() == self.values@.len());
                bit_calls::read_integers(&self.values, call.value_depth).is_some() && lists_lease(
                    progress,
                    call.lease,
                )
            },
        }
    }
}

/// A BIT call that is complete leaves one value above what lay on the value stack when its array
/// was captured, and its lease is given back.
pub proof fn law_bit_call_is_balanced(
    vm: VmModel,
    form: Form,
    call: BitCall,
    value: i64,
    visited: u64,
)
    requires
        call.value_depth <= form.values.len(),
    ensures
        ({
            let (after, evaluated, r) = bit_resumed(
                vm,
                form,
                call,
                BitReplyModel::Complete { value, visited },
            );
            &&& r is Ok
            &&& evaluated.values.len() == call.value_depth + 1
            &&& evaluated.values.last() == Val::Integer(value)
            &&& evaluated.values.take(call.value_depth as int) == form.values.take(
                call.value_depth as int,
            )
            &&& forall|i: int|
                0 <= i < after.store.leases.len() ==> (#[trigger] after.store.leases[i]).id
                    != call.lease
        }),
{
    let (after, evaluated, _) = bit_resumed(
        vm,
        form,
        call,
        BitReplyModel::Complete { value, visited },
    );
    assert(evaluated.values.take(call.value_depth as int) =~= form.values.take(
        call.value_depth as int,
    ));
    lemma_kept(vm.store.leases, bit_calls::other_than(call.lease));
}

proof fn lemma_kept(leases: Seq<ArrayLease>, p: spec_fn(ArrayLease) -> bool)
    ensures
        forall|i: int|
            0 <= i < bit_calls::kept(leases, p).len() ==> p(
                #[trigger] bit_calls::kept(leases, p)[i],
            ),
    decreases leases.len(),
{
    if leases.len() > 0 {
        let before = bit_calls::kept(leases.drop_last(), p);
        let all = bit_calls::kept(leases, p);
        lemma_kept(leases.drop_last(), p);
        assert forall|i: int| 0 <= i < all.len() implies p(#[trigger] all[i]) by {
            if i < before.len() {
                assert(all[i] == before[i]);
            }
        }
    }
}

/// Capturing the array of a BIT call gives no lease back that the evaluation, a suspended one of any
/// fiber, or a BIT call of a frame holds.
pub proof fn law_capture_keeps_held_leases(
    vm: VmModel,
    fiber: FiberModel,
    form: Form,
    spec: BitCallSpec,
    site: RuntimeCallSite,
    source: Seq<Option<Tree>>,
    references: Seq<ArrayLeaseId>,
    lease: ArrayLease,
)
    requires
        vm.store.leases.contains(lease),
        held_leases(form.work).contains(lease.id) || bit_calls::is_live(
            vm.fibers,
            Some(fiber),
            references,
            lease.id,
        ),
    ensures
        bit_opened(vm, fiber, form, spec, site, source, references).0.store.leases.contains(lease),
{
    let own = held_leases(form.work);
    let others = own + references;
    if own.contains(lease.id) {
        let i = choose|i: int| 0 <= i < own.len() && own[i] == lease.id;
        assert(others[i] == lease.id);
    }
    if references.contains(lease.id) {
        let i = choose|i: int| 0 <= i < references.len() && references[i] == lease.id;
        assert(others[own.len() + i] == lease.id);
    }
    bit_calls::law_pruning_keeps_held_leases(vm, Some(fiber), others, lease);
}

} // verus!
