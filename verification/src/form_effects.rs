//! Map, input, EXISTVAR and mutation tasks of an evaluation.

use vstd::prelude::*;
use std::rc::Rc;
use crate::ast::{self, Expr, Tree};
use crate::existvar::invalid;
use crate::fastpaths;
use crate::fault::{self, FaultCategory, Failure, StepError, VmFaultCode};
use crate::form_binding;
use crate::form_methods;
use crate::form_resources;
use crate::form_staged;
use crate::form_support;
use crate::forms::{
    self, BoundCall, BoundService, Form, MapCall, MapLease, MapLeaseOwner, MapWorkCall,
    RuntimeBoundCall, RuntimeCallSite, RuntimeFormContinuation, RuntimeFormTask, Task,
};
use crate::memory::BytecodeStorage;
use crate::named;
use crate::program::{BoundRuntimeNative, BytecodeGlobal, ProgramGeneration};
use crate::state::{Fiber, FiberModel, FrameModel, Vm, VmModel};
use crate::text;
use crate::value::{self, BytecodeType, FiberId, Place, PlaceDescriptor, SymbolKey, Val, VmValue};

verus! {

/// A wrong argument of a MAP call.
pub open spec fn map_argument() -> Failure {
    form_binding::argument_failure("MAP arguments cannot be omitted"@)
}

/// An argument of a MAP call that is left out.
pub fn argument_error() -> (r: StepError)
    ensures
        r@ == map_argument(),
{
    form_binding::bad_type("MAP arguments cannot be omitted")
}

/// Every argument is given.
pub open spec fn all_given(source: Seq<Option<Tree>>) -> bool {
    forall|i: int| 0 <= i < source.len() ==> (#[trigger] source[i]) is Some
}

/// A MAP call is the one that its plan has bound.
pub open spec fn map_planned(
    form: Form,
    program: ProgramGeneration,
    bound: BoundService,
    site: RuntimeCallSite,
    source: Seq<Option<Tree>>,
) -> bool {
    &&& program.map_extensions
    &&& form.bound(site) == Some(BoundCall::Native(bound))
    &&& form.has_arguments(program, site, source)
    &&& bound.omitted.len() == 0
    &&& all_given(source)
    &&& match form_binding::map_kind(program, bound.import.name) {
        None => false,
        Some(k) => form_binding::map_takes(program.map_operations@[k], bound.import.parameters)
            && bound.import.result == Some(program.map_operations@[k].result),
    }
}

/// A MAP call is scheduled; its name is evaluated first.
pub open spec fn map_scheduled(
    vm: VmModel,
    form: Form,
    bound: BoundService,
    arguments: Seq<Option<Tree>>,
    site: RuntimeCallSite,
) -> (Form, Result<(), Failure>) {
    match vm.program(form.generation) {
        None => (form, Err(Failure::invalid("MAP form generation missing"@))),
        Some(program) => if !map_planned(form, program, bound, site, arguments) {
            (form, Err(Failure::invalid("MAP plan binding differs"@)))
        } else {
            match form_methods::nth(arguments, 0) {
                None => (form, Err(map_argument())),
                Some(t) => (
                    form.with_task(Task::MapCapture(bound, site, arguments)).with_task(
                        Task::Evaluate(t),
                    ),
                    Ok(()),
                ),
            }
        },
    }
}

/// A map that is to be captured.
#[derive(PartialEq, Eq, Debug)]
pub struct MapAsk {
    pub name: String,
    pub owner: MapLeaseOwner,
    pub kind: usize,
}

/// Mathematical content of a [`MapAsk`].
pub struct AskedMap {
    pub name: Seq<char>,
    pub owner: MapLeaseOwner,
    pub kind: usize,
}

impl View for MapAsk {
    type V = AskedMap;

    open spec fn view(&self) -> AskedMap {
        AskedMap { name: self.name@, owner: self.owner, kind: self.kind }
    }
}

pub open spec fn map_owner(form: Form, fiber: FiberId, slot: u64) -> MapLeaseOwner {
    MapLeaseOwner {
        fiber,
        frame: form.frame,
        generation: form.generation,
        function: form.function,
        instruction: form.instruction,
        slot,
    }
}

/// A MAP call whose name is known is opened; `provided` tells whether its service is there.
pub open spec fn map_opened(
    vm: VmModel,
    fiber: FiberId,
    form: Form,
    bound: BoundService,
    site: RuntimeCallSite,
    arguments: Seq<Option<Tree>>,
    provided: bool,
) -> (Form, Result<AskedMap, Failure>) {
    match form_support::popped(form, "MAP name missing"@) {
        (after, Err(e)) => (after, Err(e)),
        (after, Ok(Val::Text(name))) => match vm.program(form.generation) {
            None => (after, Err(Failure::invalid("MAP form generation missing"@))),
            Some(program) => if !map_planned(after, program, bound, site, arguments) {
                (after, Err(Failure::invalid("MAP capture plan differs"@)))
            } else if !provided {
                (
                    after,
                    Err(
                        Failure {
                            category: FaultCategory::HostContract,
                            code: VmFaultCode::Native,
                            message: "MAP provider is not registered"@,
                        },
                    ),
                )
            } else if after.next_map_call == u64::MAX {
                (
                    after,
                    Err(
                        form_resources::resource_failure("MAP form capture identity exhausted"@),
                    ),
                )
            } else {
                let slot = after.next_map_call;
                (
                    Form { next_map_call: (slot + 1) as u64, ..after },
                    Ok(
                        AskedMap {
                            name,
                            owner: map_owner(form, fiber, slot),
                            kind: form_binding::map_kind(program, bound.import.name)->0 as usize,
                        },
                    ),
                )
            },
        },
        (after, Ok(_)) => (after, Err(Failure::invalid("MAP name is not String"@))),
    }
}

/// What capturing a map came to.
#[derive(PartialEq, Eq, Debug)]
pub enum MapReply {
    /// There is no such map; the call gives this value.
    Missing(VmValue),
    Captured(MapLease),
}

/// Mathematical content of a [`MapReply`].
pub enum MapReplied {
    Missing(Val),
    Captured(MapLease),
}

impl View for MapReply {
    type V = MapReplied;

    open spec fn view(&self) -> MapReplied {
        match self {
            MapReply::Missing(v) => MapReplied::Missing(v@),
            MapReply::Captured(l) => MapReplied::Captured(*l),
        }
    }
}

/// A MAP call whose map was captured evaluates its other arguments.
pub open spec fn map_started(
    program: ProgramGeneration,
    form: Form,
    bound: BoundService,
    site: RuntimeCallSite,
    arguments: Seq<Option<Tree>>,
    ask: AskedMap,
    reply: Result<MapReplied, Failure>,
) -> (Form, Result<(), Failure>) {
    match reply {
        Err(e) => (form, Err(e)),
        Ok(MapReplied::Missing(v)) => (form.with_value(v), Ok(())),
        Ok(MapReplied::Captured(lease)) => {
            let call = MapCall {
                slot: ask.owner.slot,
                lease,
                name: ask.name,
                kind: ask.kind,
                bound,
                site,
                source: arguments,
                arity: arguments.len() as usize,
                value_depth: form.values.len() as usize,
            };
            if program.map_operations@[ask.kind as int].values && arguments.len() > 1 {
                match arguments.last() {
                    None => (form, Err(map_argument())),
                    Some(enabled) => (
                        form.with_task(
                            Task::MapValuesEnabled(
                                call,
                                if arguments.len() == 3 {
                                    arguments[1]
                                } else {
                                    None
                                },
                            ),
                        ).with_task(Task::Evaluate(enabled)),
                        Ok(()),
                    ),
                }
            } else {
                (
                    form_support::with_tasks(
                        form.with_task(Task::MapFinish(call)),
                        form_staged::present_tasks(form_methods::from(arguments, 1)),
                    ),
                    Ok(()),
                )
            }
        },
    }
}

/// A variable that can take the values of a map.
pub open spec fn takes_values(g: BytecodeGlobal) -> bool {
    g.value_type is String && g.mutable && g.dimensions@.len() == 1
}

/// The variable that takes the values of a map.
pub open spec fn output_of(program: ProgramGeneration, function: SymbolKey, t: Tree) -> Result<
    BytecodeGlobal,
    Failure,
> {
    match ast::variable_in(t) {
        None => Err(
            form_binding::argument_failure("MAP_VALUES output must be a variable token"@),
        ),
        Some(name) => match program.spec_scoped_variable(function, name) {
            Some(g) => if takes_values(*g) {
                Ok(*g)
            } else {
                Err(wrong_output())
            },
            None => Err(wrong_output()),
        },
    }
}

pub open spec fn wrong_output() -> Failure {
    form_binding::argument_failure("MAP_VALUES output must be a mutable String array of rank one"@)
}

/// The variable that takes the values of a map.
pub fn output_variable<'a>(program: &'a ProgramGeneration, function: SymbolKey, e: &Rc<Expr>) -> (r:
    Result<&'a BytecodeGlobal, StepError>)
    ensures
        match r {
            Ok(g) => output_of(*program, function, e@) == Ok::<BytecodeGlobal, Failure>(*g),
            Err(x) => output_of(*program, function, e@) == Err::<BytecodeGlobal, Failure>(x@),
        },
{
    let wrong = "MAP_VALUES output must be a mutable String array of rank one";
    match ast::variable_name(e) {
        None => Err(form_binding::bad_type("MAP_VALUES output must be a variable token")),
        Some(name) => match program.scoped_variable(function, name.as_str()) {
            Some(g) => {
                if g.value_type == BytecodeType::String && g.mutable && g.dimensions.len() == 1 {
                    Ok(g)
                } else {
                    Err(form_binding::bad_type(wrong))
                }
            },
            None => Err(form_binding::bad_type(wrong)),
        },
    }
}

/// The place of the variable that takes the values of a map.
pub open spec fn output_place(vm: VmModel, fiber: FiberId, form: Form, g: BytecodeGlobal) -> Place {
    Place {
        backing: None,
        variable: g.key,
        indices: Seq::empty(),
        fiber: Some(fiber),
        frame: fastpaths::own_frame(g, form.frame),
        character: if g.storage is Character {
            Some(named::target_character(vm, form.generation))
        } else {
            None
        },
    }
}

/// MAP_VALUES goes on where it is enabled; false where it gives an empty text at once.
pub open spec fn values_enabled(
    vm: VmModel,
    fiber: FiberId,
    form: Form,
    call: MapCall,
    output: Option<Tree>,
) -> (Form, Result<bool, Failure>) {
    match form_support::popped_integer(form, "MAP_VALUES enabled value is missing"@) {
        (after, Err(e)) => (after, Err(e)),
        (after, Ok(enabled)) => if enabled == 0 {
            (after.with_value(Val::Text(Seq::empty())), Ok(false))
        } else {
            let on = after.with_value(Val::Integer(enabled));
            match output {
                None => (on.with_task(Task::MapFinish(call)), Ok(true)),
                Some(t) => match vm.program(form.generation) {
                    None => (on, Err(Failure::invalid("MAP form generation missing"@))),
                    Some(program) => match output_of(program, form.function, t) {
                        Err(e) => (on, Err(e)),
                        Ok(g) => (
                            on.with_value(
                                Val::StringPlace(output_place(vm, fiber, form, g)),
                            ).with_task(Task::MapFinish(call)),
                            Ok(true),
                        ),
                    },
                },
            }
        },
    }
}

/// What a step comes to once a map was given back: a failure to do so comes first.
pub open spec fn given_back(step: Result<(), Failure>, release: Result<(), Failure>) -> Result<
    (),
    Failure,
> {
    match release {
        Err(e) => Err(e),
        Ok(_) => step,
    }
}

/// What a step comes to once a map was given back.
pub fn after_release(step: Result<(), StepError>, release: Result<(), StepError>) -> (r: Result<
    (),
    StepError,
>)
    ensures
        form_resources::unit_result(r) == given_back(
            form_resources::unit_result(step),
            form_resources::unit_result(release),
        ),
{
    match release {
        Err(e) => Err(e),
        Ok(_) => step,
    }
}

/// The arguments of a MAP call: its name, then its values, where the array that takes the values
/// stands before the switch.
pub open spec fn map_arguments(values_operation: bool, name: Seq<char>, values: Seq<Val>) -> Seq<Val> {
    let ordered = if values_operation && values.len() == 2 {
        seq![values[1], values[0]]
    } else {
        values
    };
    seq![Val::Text(name)] + ordered
}

/// The arguments of a MAP call are taken.
pub open spec fn map_prepared(vm: VmModel, form: Form, call: MapCall) -> (
    Form,
    Result<Seq<Val>, Failure>,
) {
    if call.arity == 0 || form.values.len() != call.value_depth + call.arity - 1 {
        (form, Err(Failure::invalid("MAP form temporary value depth differs"@)))
    } else {
        match vm.program(form.generation) {
            None => (form, Err(Failure::invalid("MAP form generation missing"@))),
            Some(program) => if !map_planned(form, program, call.bound, call.site, call.source) {
                (form, Err(Failure::invalid("MAP completion plan differs"@)))
            } else {
                let (after, values) = form_support::taken(form, (call.arity - 1) as nat);
                let values_operation = call.kind < program.map_operations@.len()
                    && program.map_operations@[call.kind as int].values;
                (
                    after,
                    match values {
                        Err(e) => Err(e),
                        Ok(v) => Ok(map_arguments(values_operation, call.name, v)),
                    },
                )
            },
        }
    }
}

/// The result that a service left on the owner's stack is moved to the value stack.
pub open spec fn owner_result(fiber: FiberModel, form: Form, depth: nat, message: Seq<char>) -> (
    FiberModel,
    Form,
    Result<(), Failure>,
) {
    match form_support::owner_at(fiber, form.frame) {
        Err(e) => (fiber, form, Err(e)),
        Ok(i) => {
            let owner = fiber.frames[i];
            if owner.stack.len() != depth + 1 {
                (fiber, form, Err(Failure::invalid(message)))
            } else {
                (
                    FiberModel {
                        frames: fiber.frames.update(
                            i,
                            FrameModel { stack: owner.stack.drop_last(), ..owner },
                        ),
                        ..fiber
                    },
                    form.with_value(owner.stack.last()),
                    Ok(()),
                )
            }
        },
    }
}

/// The maps that the stored MAP calls hold.
pub open spec fn held_maps(work: Seq<Task>) -> Seq<MapLease>
    decreases work.len(),
{
    if work.len() == 0 {
        Seq::empty()
    } else {
        match work.last() {
            Task::MapFinish(call) => held_maps(work.drop_last()).push(call.lease),
            Task::MapValuesEnabled(call, _) => held_maps(work.drop_last()).push(call.lease),
            _ => held_maps(work.drop_last()),
        }
    }
}

/// A stored MAP call is in a state that it can be in.
pub open spec fn map_valid(vm: VmModel, fiber: FiberId, form: Form, call: MapCall) -> bool {
    match vm.program(form.generation) {
        None => false,
        Some(program) => {
            &&& call.slot > 0
            &&& call.slot < form.next_map_call
            &&& call.lease.owner == map_owner(form, fiber, call.slot)
            &&& call.value_depth <= form.values.len()
            &&& program.map_extensions
            &&& form_binding::map_kind(program, call.bound.import.name) == Some(call.kind as int)
            &&& call.arity == call.bound.import.parameters.len()
            &&& call.arity == call.source.len()
            &&& map_planned(form, program, call.bound, call.site, call.source)
        },
    }
}

/// The output of a stored MAP_VALUES call is the one in its source.
pub open spec fn output_valid(program: ProgramGeneration, call: MapCall, output: Option<Tree>) -> bool {
    &&& call.kind < program.map_operations@.len()
    &&& program.map_operations@[call.kind as int].values
    &&& call.arity > 1
    &&& output == (if call.arity == 3 {
        form_methods::nth(call.source, 1)
    } else {
        None
    })
}

fn is_all_given(source: &Vec<Option<Rc<Expr>>>) -> (r: bool)
    ensures
        r == all_given(ast::argument_trees(source@)),
{
    let ghost all = ast::argument_trees(source@);
    proof {
        ast::lemma_argument_trees(source@);
    }
    let mut i: usize = 0;
    while i < source.len()
        invariant
            i <= source.len(),
            all.len() == source@.len(),
            all == ast::argument_trees(source@),
            forall|j: int|
                0 <= j < source@.len() ==> #[trigger] all[j] == ast::argument_tree(source@[j]),
            forall|j: int| 0 <= j < i ==> (#[trigger] all[j]) is Some,
        decreases source.len() - i,
    {
        assert(all[i as int] == ast::argument_tree(source@[i as int]));
        if source[i].is_none() {
            return false;
        }
        i = i + 1;
    }
    true
}

pub open spec fn reply_result(r: Result<MapReply, StepError>) -> Result<MapReplied, Failure> {
    match r {
        Ok(m) => Ok(m@),
        Err(e) => Err(e@),
    }
}

impl RuntimeFormContinuation {
    /// Tells whether a MAP call is the one that its plan has bound.
    pub fn valid_map_binding(
        &self,
        program: &ProgramGeneration,
        bound: &BoundRuntimeNative,
        site: RuntimeCallSite,
        source: &Vec<Option<Rc<Expr>>>,
    ) -> (r: bool)
        ensures
            r == map_planned(self@, *program, bound@, site, ast::argument_trees(source@)),
    {
        if !program.map_extensions {
            return false;
        }
        let planned = match self.lookup_bound_call(site) {
            Some(RuntimeBoundCall::Native(b)) => forms::same_native(b, bound),
            _ => false,
        };
        if !planned || !self.validate_call_arguments(program, site, source)
            || bound.omitted_arguments.len() != 0 || !is_all_given(source) {
            return false;
        }
        match form_binding::find_map(program, bound.import.name.as_str()) {
            None => false,
            Some(k) => {
                let m = &program.map_operations[k];
                let result = match bound.import.result {
                    Some(t) => t == m.result,
                    None => false,
                };
                m.valid_parameters(&bound.import.parameters) && result
            },
        }
    }

    /// Schedules a MAP call; its name is evaluated first.
    pub fn schedule_map(
        &mut self,
        vm: &Vm,
        bound: &Rc<BoundRuntimeNative>,
        arguments: Vec<Option<Rc<Expr>>>,
        site: RuntimeCallSite,
    ) -> (r: Result<(), StepError>)
        ensures
            (final(self)@, form_resources::unit_result(r)) == map_scheduled(
                vm@,
                old(self)@,
                bound@,
                ast::argument_trees(arguments@),
                site,
            ),
    {
        let program = match vm.program(self.generation) {
            None => {
                return Err(invalid("MAP form generation missing"));
            },
            Some(p) => p,
        };
        if !self.valid_map_binding(&program, bound, site, &arguments) {
            return Err(invalid("MAP plan binding differs"));
        }
        match form_methods::nth_argument(&arguments, 0) {
            None => Err(argument_error()),
            Some(first) => {
                self.push_task(
                    RuntimeFormTask::MapCapture { bound: bound.clone(), site, arguments },
                );
                self.push_task(RuntimeFormTask::Evaluate(first));
                Ok(())
            },
        }
    }

    /// Opens a MAP call whose name is known; the map is captured next.
    pub fn capture_map(
        &mut self,
        vm: &Vm,
        fiber: FiberId,
        bound: &BoundRuntimeNative,
        site: RuntimeCallSite,
        arguments: &Vec<Option<Rc<Expr>>>,
        provided: bool,
    ) -> (r: Result<MapAsk, StepError>)
        ensures
            (final(self)@, fault::outcome(r)) == map_opened(
                vm@,
                fiber,
                old(self)@,
                bound@,
                site,
                ast::argument_trees(arguments@),
                provided,
            ),
    {
        let name = match self.pop_value("MAP name missing") {
            Err(e) => {
                return Err(e);
            },
            Ok(VmValue::String(name)) => name,
            Ok(_) => {
                return Err(invalid("MAP name is not String"));
            },
        };
        let program = match vm.program(self.generation) {
            None => {
                return Err(invalid("MAP form generation missing"));
            },
            Some(p) => p,
        };
        if !self.valid_map_binding(&program, bound, site, arguments) {
            return Err(invalid("MAP capture plan differs"));
        }
        let kind: usize = match form_binding::find_map(&program, bound.import.name.as_str()) {
            None => {
                return Err(invalid("MAP kind missing"));
            },
            Some(k) => k,
        };
        if !provided {
            return Err(
                StepError::classified(
                    FaultCategory::HostContract,
                    VmFaultCode::Native,
                    "MAP provider is not registered",
                ),
            );
        }
        let slot: u64 = self.next_map_call;
        if slot == u64::MAX {
            return Err(form_resources::resource_limit("MAP form capture identity exhausted"));
        }
        self.next_map_call = slot + 1;
        let owner = MapLeaseOwner {
            fiber,
            frame: self.frame,
            generation: self.generation,
            function: self.function,
            instruction: self.instruction,
            slot,
        };
        Ok(MapAsk { name, owner, kind })
    }

    /// Lets a MAP call whose map was captured evaluate its other arguments.
    pub fn start_map(
        &mut self,
        program: &ProgramGeneration,
        bound: Rc<BoundRuntimeNative>,
        site: RuntimeCallSite,
        arguments: Vec<Option<Rc<Expr>>>,
        ask: MapAsk,
        reply: Result<MapReply, StepError>,
    ) -> (r: Result<(), StepError>)
        requires
            ask@.kind < program.map_operations@.len(),
        ensures
            (final(self)@, form_resources::unit_result(r)) == map_started(
                *program,
                old(self)@,
                bound@,
                site,
                ast::argument_trees(arguments@),
                ask@,
                reply_result(reply),
            ),
    {
        let ghost whole = ast::argument_trees(arguments@);
        proof {
            ast::lemma_argument_trees(arguments@);
        }
        let lease = match reply {
            Err(e) => {
                return Err(e);
            },
            Ok(MapReply::Missing(v)) => {
                self.push_value(v);
                return Ok(());
            },
            Ok(MapReply::Captured(l)) => l,
        };
        let values = program.map_operations[ask.kind].values;
        let arity: usize = arguments.len();
        let staged = values && arity > 1;
        let enabled = if staged {
            ast::copy_argument(&arguments[arity - 1])
        } else {
            None
        };
        if staged && enabled.is_none() {
            return Err(argument_error());
        }
        let output = if arity == 3 {
            ast::copy_argument(&arguments[1])
        } else {
            None
        };
        let tail = ast::copy_arguments(&arguments, 1);
        let call = MapWorkCall {
            slot: ask.owner.slot,
            lease,
            name: ask.name,
            kind: ask.kind,
            bound,
            site,
            source: arguments,
            arity,
            value_depth: self.values.len(),
        };
        match enabled {
            Some(e) => {
                self.push_task(RuntimeFormTask::MapValuesEnabled { call, output });
                self.push_task(RuntimeFormTask::Evaluate(e));
            },
            None => {
                self.push_task(RuntimeFormTask::MapFinish(call));
                assert(ast::argument_trees(tail@) == form_methods::from(whole, 1));
                self.push_present(&tail);
            },
        }
        Ok(())
    }

    /// Goes on with MAP_VALUES where it is enabled; the map is given back next where this gives
    /// false or fails.
    pub fn map_values_enabled(
        &mut self,
        vm: &Vm,
        fiber: FiberId,
        call: MapWorkCall,
        output: &Option<Rc<Expr>>,
    ) -> (r: Result<bool, StepError>)
        ensures
            (final(self)@, form_methods::bool_result(r)) == values_enabled(
                vm@,
                fiber,
                old(self)@,
                call@,
                ast::argument_tree(*output),
            ),
    {
        let enabled: i64 = match self.pop_integer("MAP_VALUES enabled value is missing") {
            Err(e) => {
                return Err(e);
            },
            Ok(n) => n,
        };
        if enabled == 0 {
            let empty = VmValue::String(String::new());
            assert(empty@->Text_0 =~= Seq::<char>::empty());
            self.push_value(empty);
            return Ok(false);
        }
        self.push_value(VmValue::Integer(enabled));
        match output {
            None => {},
            Some(e) => {
                let program = match vm.program(self.generation) {
                    None => {
                        return Err(invalid("MAP form generation missing"));
                    },
                    Some(p) => p,
                };
                let g = match output_variable(&program, self.function, e) {
                    Err(x) => {
                        return Err(x);
                    },
                    Ok(g) => g,
                };
                let character: Option<u64> = match g.storage {
                    BytecodeStorage::Character => Some(
                        vm.target_character_for_generation(self.generation),
                    ),
                    _ => None,
                };
                let indices: Vec<u64> = Vec::new();
                assert(indices@ =~= Seq::<u64>::empty());
                let place = PlaceDescriptor {
                    backing: None,
                    variable: g.key,
                    indices,
                    character,
                    fiber: Some(fiber),
                    frame: form_support::frame_of(g, self.frame),
                };
                self.push_value(VmValue::StringPlace(Box::new(place)));
            },
        }
        self.push_task(RuntimeFormTask::MapFinish(call));
        Ok(true)
    }

    /// Takes the arguments of a MAP call; its service is called next, or the map is given back
    /// where this fails.
    pub fn finish_map(&mut self, vm: &Vm, call: &MapWorkCall) -> (r: Result<
        Vec<VmValue>,
        StepError,
    >)
        ensures
            (final(self)@, form_support::values_result(r)) == map_prepared(
                vm@,
                old(self)@,
                call@,
            ),
    {
        assert(self@.values.len() == self.values@.len());
        let have: usize = self.values.len();
        if call.arity == 0 || have < call.value_depth || have - call.value_depth != call.arity - 1 {
            return Err(invalid("MAP form temporary value depth differs"));
        }
        let program = match vm.program(self.generation) {
            None => {
                return Err(invalid("MAP form generation missing"));
            },
            Some(p) => p,
        };
        if !self.valid_map_binding(&program, &call.bound, call.site, &call.source) {
            return Err(invalid("MAP completion plan differs"));
        }
        let mut values = match self.take_values(call.arity - 1) {
            Err(e) => {
                return Err(e);
            },
            Ok(v) => v,
        };
        let values_operation = call.kind < program.map_operations.len()
            && program.map_operations[call.kind].values;
        let ghost before = value::vals(values@);
        if values_operation && values.len() == 2 {
            let second = values.remove(1);
            values.insert(0, second);
            proof {
                assert(before[0] == value::vals(values@)[1]);
                assert(value::vals(values@) =~= seq![before[1], before[0]]);
            }
        }
        let ghost ordered = value::vals(values@);
        let name = VmValue::text(call.name.as_str());
        values.insert(0, name);
        assert(value::vals(values@) =~= seq![Val::Text(call.name@)] + ordered);
        Ok(values)
    }

    /// Moves the result that a service left on the owner's stack to the value stack.
    pub fn take_owner_result(&mut self, fiber: &mut Fiber, depth: usize, message: &str) -> (r: Result<
        (),
        StepError,
    >)
        ensures
            (final(fiber)@, final(self)@, form_resources::unit_result(r)) == owner_result(
                old(fiber)@,
                old(self)@,
                depth as nat,
                message@,
            ),
    {
        let owner = match form_support::owner_frame_mut(fiber, self.frame) {
            Err(e) => {
                return Err(e);
            },
            Ok(f) => f,
        };
        let ghost stack = owner@.stack;
        assert(stack.len() == owner.stack@.len());
        let have: usize = owner.stack.len();
        if have == 0 || have - 1 != depth {
            return Err(invalid(message));
        }
        match owner.stack.pop() {
            None => Err(invalid(message)),
            Some(v) => {
                proof {
                    assert(stack.last() == v@);
                    assert(value::vals(owner.stack@) =~= stack.drop_last());
                }
                self.push_value(v);
                Ok(())
            },
        }
    }

    /// The maps that the stored MAP calls hold.
    pub fn map_leases(&self) -> (r: Vec<MapLease>)
        ensures
            r@ == held_maps(self@.work),
    {
        let ghost work = self@.work;
        let mut out: Vec<MapLease> = Vec::new();
        let mut i: usize = 0;
        assert(work.take(0) =~= Seq::<Task>::empty());
        while i < self.work.len()
            invariant
                i <= self.work.len(),
                work == self@.work,
                out@ == held_maps(work.take(i as int)),
            decreases self.work.len() - i,
        {
            proof {
                assert(work[i as int] == self.work@[i as int]@);
                assert(work.take(i + 1).drop_last() =~= work.take(i as int));
            }
            match &self.work[i] {
                RuntimeFormTask::MapFinish(call) => {
                    out.push(call.lease);
                },
                RuntimeFormTask::MapValuesEnabled { call, .. } => {
                    out.push(call.lease);
                },
                _ => {},
            }
            i = i + 1;
        }
        assert(work.take(i as int) =~= work);
        out
    }

    /// Tells whether a stored MAP call is in a state that it can be in.
    pub fn valid_map_task(&self, vm: &Vm, fiber: FiberId, call: &MapWorkCall) -> (r: bool)
        ensures
            r == map_valid(vm@, fiber, self@, call@),
    {
        proof {
            ast::lemma_argument_trees(call.source@);
        }
        let program = match vm.program(self.generation) {
            None => {
                return false;
            },
            Some(p) => p,
        };
        let expected = MapLeaseOwner {
            fiber,
            frame: self.frame,
            generation: self.generation,
            function: self.function,
            instruction: self.instruction,
            slot: call.slot,
        };
        let kind = match form_binding::find_map(&program, call.bound.import.name.as_str()) {
            Some(k) => k == call.kind,
            None => false,
        };
        call.slot > 0 && call.slot < self.next_map_call && call.lease.owner == expected
            && call.value_depth <= self.values.len() && program.map_extensions && kind && call.arity
            == call.bound.import.parameters.len() && call.arity == call.source.len()
            && self.valid_map_binding(&program, &call.bound, call.site, &call.source)
    }
}

/// Tells whether the output of a stored MAP_VALUES call is the one in its source.
pub fn valid_map_output_source(
    program: &ProgramGeneration,
    call: &MapWorkCall,
    output: &Option<Rc<Expr>>,
) -> (r: bool)
    ensures
        r == output_valid(*program, call@, ast::argument_tree(*output)),
{
    if call.kind >= program.map_operations.len() || !program.map_operations[call.kind].values
        || call.arity <= 1 {
        return false;
    }
    let expected = if call.arity == 3 {
        form_methods::nth_argument(&call.source, 1)
    } else {
        None
    };
    match (output, &expected) {
        (Some(a), Some(b)) => ast::same_expr(a, b),
        (None, None) => true,
        _ => false,
    }
}

} // verus!
