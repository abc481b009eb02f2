//! What the reduction of arguments holds, and whether its terms name symbols that are there.

use vstd::prelude::*;
use crate::basic;
use crate::existvar::invalid;
use crate::fastpaths;
use crate::fault::{Failure, StepError};
use crate::form_binding;
use crate::form_graph;
use crate::form_pump;
use crate::form_queries;
use crate::form_reduction;
use crate::form_resources::{self, Count, Tally};
use crate::form_support;
use crate::forms::{
    Form, Pending, PendingReferenceArguments, Reduction, RestructureTask, RuntimeFormContinuation,
    RuntimeFormRoot, RuntimeFormTask, Task, MAX_RUNTIME_FORM_BYTES, MAX_RUNTIME_FORM_NESTING,
};
use crate::lookup;
use crate::memory::BytecodeStorage;
use crate::named;
use crate::program::{
    BytecodeFunction, BytecodeFunctionKind, BytecodeGlobal, CallTextSpec, NativeImport,
    ProgramGeneration, RuntimeExpressionShape, RuntimeHostAuthorization, RuntimeNativeAuthorization,
};
use crate::state::{Fiber, FiberModel, Vm, VmModel};
use crate::terms::{
    self, Callee, Fragment, Graph, Literal, Node, ReferenceTermArgument, ReferenceTermCall,
    ReferenceTermGraph, ReferenceTermKind, ReferenceTermNode, ReferenceTermPart, ReferenceTermValue,
    Term,
};
use crate::text;
use crate::value::{
    BytecodeType, FrameId, GenerationId, Place, PlaceDescriptor, SymbolKey, Val, VmValue,
};

verus! {

/// The bytes of the fixed texts of a formatted term.
pub open spec fn fragments_bytes(parts: Seq<Fragment>) -> nat
    decreases parts.len(),
{
    if parts.len() == 0 {
        0
    } else {
        fragments_bytes(parts.drop_last()) + match parts.last() {
            Fragment::Text(s) => form_resources::size(s),
            _ => 0,
        }
    }
}

/// The bytes of the texts of a term.
pub open spec fn node_bytes(term: Term) -> nat {
    match term {
        Term::Value(Literal::Text(s)) => form_resources::size(s),
        Term::Call(target, _) => match target.name() {
            Some(n) => form_resources::size(n),
            None => 0,
        },
        Term::Form(parts) => fragments_bytes(parts),
        _ => 0,
    }
}

/// The slots and bytes of the nodes of a graph.
pub open spec fn nodes_weight(nodes: Seq<Node>) -> Tally
    decreases nodes.len(),
{
    if nodes.len() == 0 {
        form_resources::tally(0, 0)
    } else {
        nodes_weight(nodes.drop_last()).plus(
            form_resources::tally(
                terms::children(nodes.last().term).len(),
                node_bytes(nodes.last().term),
            ),
        )
    }
}

/// The slots and bytes of a step of a reduction.
pub open spec fn step_weight(t: Reduction) -> Tally {
    match t {
        Reduction::Children(c) => form_resources::tally(
            c.visits.len() + c.results.len(),
            form_reduction::edges_bytes(c.results),
        ),
        Reduction::CaptureChild(c) => form_resources::tally(
            c.visits.len() + c.results.len(),
            form_reduction::edges_bytes(c.results),
        ),
        _ => form_resources::tally(0, 0),
    }
}

pub open spec fn steps_weight(tasks: Seq<Reduction>) -> Tally
    decreases tasks.len(),
{
    if tasks.len() == 0 {
        form_resources::tally(0, 0)
    } else {
        steps_weight(tasks.drop_last()).plus(step_weight(tasks.last()))
    }
}

/// What the reduction of arguments holds.
pub open spec fn pending_weight(pending: Option<Pending>) -> Tally {
    match pending {
        None => form_resources::tally(0, 0),
        Some(p) => form_resources::tally(
            p.graph.template.nodes.len() + p.graph.roots.len() + p.tasks.len() + p.results.len(),
            form_reduction::literal_bytes(p.graph),
        ).plus(nodes_weight(p.graph.template.nodes)).plus(
            form_resources::tally(0, form_reduction::edges_bytes(p.results)),
        ).plus(steps_weight(p.tasks)),
    }
}

fn count_fragments(parts: &Vec<ReferenceTermPart>) -> (r: Count)
    ensures
        r@ == form_resources::tally(0, fragments_bytes(terms::fragments(parts@))),
{
    let ghost all = terms::fragments(parts@);
    let mut out = Count::zero();
    let mut i: usize = 0;
    assert(all.take(0) =~= Seq::<Fragment>::empty());
    while i < parts.len()
        invariant
            i <= parts.len(),
            all == terms::fragments(parts@),
            out@ == form_resources::tally(0, fragments_bytes(all.take(i as int))),
        decreases parts.len() - i,
    {
        assert(all[i as int] == parts@[i as int]@);
        assert(all.take(i + 1).drop_last() =~= all.take(i as int));
        match &parts[i] {
            ReferenceTermPart::Text(s) => {
                out = out.more(0, form_resources::byte_count(s.as_str()));
            },
            _ => {},
        }
        i = i + 1;
    }
    assert(all.take(i as int) =~= all);
    out
}

fn count_node(node: &ReferenceTermNode) -> (r: Count)
    ensures
        r@ == form_resources::tally(
            terms::children(node@.term).len(),
            node_bytes(node@.term),
        ),
{
    let children = node.children();
    let out = Count::zero().more(children.len(), 0);
    match &node.kind {
        ReferenceTermKind::Value(ReferenceTermValue::String(s)) => out.more(
            0,
            form_resources::byte_count(s.as_str()),
        ),
        ReferenceTermKind::Call { target, .. } => match target.name() {
            Some(n) => out.more(0, form_resources::byte_count(n)),
            None => out,
        },
        ReferenceTermKind::Form { parts } => out.plus(count_fragments(parts)),
        _ => out,
    }
}

fn count_step(t: &RestructureTask) -> (r: Count)
    ensures
        r@ == step_weight(t@),
{
    match t {
        RestructureTask::Children(c) => {
            assert(c@.results.len() == c.results@.len());
            Count::zero().more(c.visits.len(), 0).more(c.results.len(), 0).plus(
                form_reduction::count_terms(&c.results),
            )
        },
        RestructureTask::CaptureChild(c) => {
            assert(c@.results.len() == c.results@.len());
            Count::zero().more(c.visits.len(), 0).more(c.results.len(), 0).plus(
                form_reduction::count_terms(&c.results),
            )
        },
        _ => Count::zero(),
    }
}

fn count_pending(p: &PendingReferenceArguments) -> (r: Count)
    ensures
        r@ == pending_weight(Some(p@)),
{
    let ghost nodes = p@.graph.template.nodes;
    let ghost tasks = p@.tasks;
    assert(nodes.len() == p.graph.template.nodes@.len());
    assert(p@.graph.roots.len() == p.graph.roots@.len());
    assert(tasks.len() == p.tasks@.len());
    assert(p@.results.len() == p.results@.len());
    let first = Count::zero().more(p.graph.template.nodes.len(), 0).more(
        p.graph.roots.len(),
        0,
    ).more(p.tasks.len(), 0).more(p.results.len(), 0).plus(p.graph.count_literals());
    let mut inner = Count::zero();
    let mut i: usize = 0;
    assert(nodes.take(0) =~= Seq::<Node>::empty());
    while i < p.graph.template.nodes.len()
        invariant
            i <= p.graph.template.nodes.len(),
            nodes == p@.graph.template.nodes,
            nodes.len() == p.graph.template.nodes@.len(),
            inner@ == nodes_weight(nodes.take(i as int)),
        decreases p.graph.template.nodes.len() - i,
    {
        assert(nodes[i as int] == p.graph.template.nodes@[i as int]@);
        assert(nodes.take(i + 1).drop_last() =~= nodes.take(i as int));
        inner = inner.plus(count_node(&p.graph.template.nodes[i]));
        i = i + 1;
    }
    assert(nodes.take(i as int) =~= nodes);
    let mut steps = Count::zero();
    let mut i: usize = 0;
    assert(tasks.take(0) =~= Seq::<Reduction>::empty());
    while i < p.tasks.len()
        invariant
            i <= p.tasks.len(),
            tasks == p@.tasks,
            tasks.len() == p.tasks@.len(),
            steps@ == steps_weight(tasks.take(i as int)),
        decreases p.tasks.len() - i,
    {
        assert(tasks[i as int] == p.tasks@[i as int]@);
        assert(tasks.take(i + 1).drop_last() =~= tasks.take(i as int));
        steps = steps.plus(count_step(&p.tasks[i]));
        i = i + 1;
    }
    assert(tasks.take(i as int) =~= tasks);
    first.plus(inner).plus(form_reduction::count_terms(&p.results)).plus(steps)
}

/// Steps that end a call whose arguments were reduced.
pub open spec fn is_ending(t: Task) -> bool {
    match t {
        Task::FinishCallTextArguments(_, _) => true,
        Task::ReleaseReferenceArguments => true,
        _ => false,
    }
}

pub open spec fn endings(work: Seq<Task>) -> nat
    decreases work.len(),
{
    if work.len() == 0 {
        0
    } else {
        endings(work.drop_last()) + (if is_ending(work.last()) {
            1nat
        } else {
            0
        })
    }
}

/// The operands of the call that an evaluation is for.
pub open spec fn root_spec(form: Form) -> Option<CallTextSpec> {
    match form.completion {
        RuntimeFormRoot::Call { spec, .. } => Some(spec),
        RuntimeFormRoot::Value(_) => None,
    }
}

/// A step about reduced arguments fits the reduction that an evaluation holds.
pub open spec fn step_fits(form: Form, t: Task) -> bool {
    match t {
        Task::ReferenceArgumentsPump => match form.pending {
            Some(p) => p.preparing,
            None => false,
        },
        Task::FinishCallTextArguments(_, spec) => form.pending is Some && root_spec(form) == Some(
            spec,
        ),
        Task::ReleaseReferenceArguments => form.pending is Some,
        _ => true,
    }
}

/// The reduction that an evaluation holds is in a state that it can be in.
pub open spec fn arguments_valid(form: Form) -> bool {
    &&& match form.pending {
        None => true,
        Some(p) => form_pump::pending_valid(p) && form.completion is Call && endings(form.work)
            == 1,
    }
    &&& !form.reference_bindings || form.pending is Some
    &&& forall|i: int| 0 <= i < form.work.len() ==> step_fits(form, #[trigger] form.work[i])
}

impl RuntimeFormContinuation {
    /// The operands of the call that this evaluation is for.
    pub fn call_text_spec(&self) -> (r: Option<CallTextSpec>)
        ensures
            r == root_spec(self@),
    {
        match self.completion {
            RuntimeFormRoot::Call { spec, .. } => Some(spec),
            RuntimeFormRoot::Value(_) => None,
        }
    }

    /// Where this evaluation was started.
    pub fn origin(&self) -> (r: (GenerationId, SymbolKey, usize))
        ensures
            r == (self@.generation, self@.function, self@.instruction),
    {
        (self.generation, self.function, self.instruction)
    }

    /// The type of the value that this evaluation is for.
    pub fn root_result_type(&self) -> (r: Option<BytecodeType>)
        ensures
            r == match self@.completion {
                RuntimeFormRoot::Value(t) => Some(t),
                RuntimeFormRoot::Call { .. } => None,
            },
    {
        match self.completion {
            RuntimeFormRoot::Value(t) => Some(t),
            RuntimeFormRoot::Call { .. } => None,
        }
    }

    /// What the reduction of arguments holds; nothing where it cannot be counted.
    pub fn reference_argument_resources(&self) -> (r: Option<(usize, usize)>)
        ensures
            form_resources::counted(r, pending_weight(self@.pending)),
    {
        match &self.reference_arguments {
            None => Some((0, 0)),
            Some(p) => count_pending(p).total(),
        }
    }

    /// Tells whether the reduction that this evaluation holds is in a state that it can be in.
    pub fn reference_arguments_valid(&self) -> (r: bool)
        ensures
            r == arguments_valid(self@),
    {
        let ghost form = self@;
        let ghost work = self@.work;
        let mut count: usize = 0;
        let mut fits = true;
        let mut i: usize = 0;
        assert(work.take(0) =~= Seq::<Task>::empty());
        while i < self.work.len()
            invariant
                i <= self.work.len(),
                form == self@,
                work == form.work,
                count <= i,
                count == endings(work.take(i as int)),
                fits == forall|j: int| 0 <= j < i ==> step_fits(form, #[trigger] work[j]),
            decreases self.work.len() - i,
        {
            assert(work[i as int] == self.work@[i as int]@);
            assert(work.take(i + 1).drop_last() =~= work.take(i as int));
            let (ending, fitting) = match &self.work[i] {
                RuntimeFormTask::ReferenceArgumentsPump => (
                    false,
                    match &self.reference_arguments {
                        Some(p) => p.preparing,
                        None => false,
                    },
                ),
                RuntimeFormTask::FinishCallTextArguments { spec, .. } => (
                    true,
                    self.reference_arguments.is_some() && match self.call_text_spec() {
                        Some(s) => s == *spec,
                        None => false,
                    },
                ),
                RuntimeFormTask::ReleaseReferenceArguments => (
                    true,
                    self.reference_arguments.is_some(),
                ),
                _ => (false, true),
            };
            if ending {
                count = count + 1;
            }
            if !fitting {
                fits = false;
            }
            i = i + 1;
        }
        assert(work.take(i as int) =~= work);
        let own = match &self.reference_arguments {
            None => true,
            Some(p) => p.valid() && count == 1 && match self.completion {
                RuntimeFormRoot::Call { .. } => true,
                RuntimeFormRoot::Value(_) => false,
            },
        };
        own && (!self.reference_bindings || self.reference_arguments.is_some()) && fits
    }

    /// Takes the indices of a variable and puts its place on the value stack.
    pub fn capture_reference_place(&mut self, vm: &Vm, fiber: &Fiber, key: SymbolKey, count: usize) -> (r:
        Result<(), StepError>)
        ensures
            (final(self)@, form_resources::unit_result(r)) == place_captured(
                vm@,
                fiber@,
                old(self)@,
                key,
                count as nat,
            ),
    {
        let indices = match self.take_indices(count) {
            Err(e) => {
                return Err(e);
            },
            Ok(v) => v,
        };
        let program = match vm.program(self.generation) {
            None => {
                return Err(invalid("reference argument place generation missing"));
            },
            Some(p) => p,
        };
        let g = match program.global(key) {
            None => {
                return Err(invalid("reference argument place definition missing"));
            },
            Some(g) => g,
        };
        let target: u64 = vm.target_character_for_generation(self.generation);
        let (character, kept) = form_support::split(g, indices, target);
        let place = PlaceDescriptor {
            backing: None,
            variable: key,
            indices: kept,
            character,
            fiber: Some(fiber.id),
            frame: form_support::frame_of(g, self.frame),
        };
        let v = match g.value_type {
            BytecodeType::Integer => VmValue::IntegerPlace(Box::new(place)),
            BytecodeType::String => VmValue::StringPlace(Box::new(place)),
            _ => {
                return Err(invalid("reference argument variable schema contains a place"));
            },
        };
        self.push_value(v);
        Ok(())
    }
}

/// The indices of a variable are taken, and its place is put on the value stack.
pub open spec fn place_captured(
    vm: VmModel,
    fiber: FiberModel,
    form: Form,
    key: SymbolKey,
    count: nat,
) -> (Form, Result<(), Failure>) {
    match form_support::indices_taken(form, count) {
        (after, Err(e)) => (after, Err(e)),
        (after, Ok(indices)) => match vm.program(form.generation) {
            None => (
                after,
                Err(Failure::invalid("reference argument place generation missing"@)),
            ),
            Some(program) => match program.spec_global(key) {
                None => (
                    after,
                    Err(Failure::invalid("reference argument place definition missing"@)),
                ),
                Some(g) => {
                    let (character, kept) = basic::split_indices(
                        *g,
                        indices,
                        named::target_character(vm, form.generation),
                    );
                    let place = Place {
                        backing: None,
                        variable: key,
                        indices: kept,
                        character,
                        fiber: Some(fiber.id),
                        frame: fastpaths::own_frame(*g, form.frame),
                    };
                    match g.value_type {
                        BytecodeType::Integer => (
                            after.with_value(Val::IntegerPlace(place)),
                            Ok(()),
                        ),
                        BytecodeType::String => (
                            after.with_value(Val::StringPlace(place)),
                            Ok(()),
                        ),
                        _ => (
                            after,
                            Err(
                                Failure::invalid(
                                    "reference argument variable schema contains a place"@,
                                ),
                            ),
                        ),
                    }
                },
            },
        },
    }
}

/// A node of a graph, if it is there.
pub open spec fn node_at(g: Graph, id: u32) -> Option<Node> {
    if id < g.nodes.len() {
        Some(g.nodes[id as int])
    } else {
        None
    }
}

/// The variable that a node stands for.
pub open spec fn node_variable(program: ProgramGeneration, node: Node) -> Option<BytecodeGlobal> {
    match node.term {
        Term::Variable(key, _) => match program.spec_global(key) {
            Some(g) => Some(*g),
            None => None,
        },
        _ => None,
    }
}

/// What a call sees of a node.
pub open spec fn node_shape(program: ProgramGeneration, node: Node) -> RuntimeExpressionShape {
    let variable = node_variable(program, node);
    RuntimeExpressionShape {
        value_type: node.value_type,
        variable: variable is Some,
        mutable: match variable {
            Some(v) => v.mutable,
            None => false,
        },
    }
}

/// What a call sees of an argument.
pub open spec fn argument_shape(program: ProgramGeneration, g: Graph, a: ReferenceTermArgument) -> Option<
    RuntimeExpressionShape,
> {
    match a.node {
        None => None,
        Some(id) => match node_at(g, id) {
            None => None,
            Some(n) => Some(node_shape(program, n)),
        },
    }
}

pub open spec fn argument_shapes(
    program: ProgramGeneration,
    g: Graph,
    arguments: Seq<ReferenceTermArgument>,
) -> Seq<Option<RuntimeExpressionShape>> {
    arguments.map_values(|a: ReferenceTermArgument| argument_shape(program, g, a))
}

/// Arguments are passed as places where the parameters are places.
pub open spec fn places_fit(parameters: Seq<BytecodeType>, arguments: Seq<ReferenceTermArgument>) -> bool {
    forall|i: int|
        0 <= i < parameters.len() && i < arguments.len() ==> (#[trigger] arguments[i]).place
            == form_graph::is_place(parameters[i])
}

/// A variable is visible in a function and takes a number of indices.
pub open spec fn variable_reachable(g: BytecodeGlobal, function: SymbolKey, indices: nat) -> bool {
    (g.owner is None || g.owner == Some(function)) && indices <= form_queries::index_room(g)
}

/// The arguments of a user call are passed as its parameters ask.
pub open spec fn user_arguments_fit(f: BytecodeFunction, arguments: Seq<ReferenceTermArgument>) -> bool {
    forall|i: int|
        0 <= i < arguments.len() ==> if i < f.parameters@.len() {
            (#[trigger] arguments[i]).place == f.parameters@[i].by_reference
        } else {
            arguments[i].node is None && !arguments[i].place
        }
}

/// An argument is what a parameter of a service asks for.
pub open spec fn argument_typed(g: Graph, expected: BytecodeType, a: ReferenceTermArgument) -> bool {
    match a.node {
        None => false,
        Some(id) => match node_at(g, id) {
            None => false,
            Some(n) => match expected {
                BytecodeType::IntegerPlace => a.place && n.term is Variable && n.value_type
                    is Integer,
                BytecodeType::StringPlace => a.place && n.term is Variable && n.value_type
                    is String,
                _ => !a.place && n.value_type == expected,
            },
        },
    }
}

pub open spec fn import_keyed(key: SymbolKey) -> spec_fn(NativeImport) -> bool {
    |n: NativeImport| n.import.key == key
}

/// A call of a service of the program is one that the service takes.
pub open spec fn native_valid(
    program: ProgramGeneration,
    g: Graph,
    result: BytecodeType,
    key: SymbolKey,
    name: Seq<char>,
    arguments: Seq<ReferenceTermArgument>,
) -> bool {
    match lookup::first_index(program.native_imports@, import_keyed(key)) {
        None => false,
        Some(k) => {
            let import = program.native_imports@[k].import;
            &&& text::same_ignoring_case(import.name@, name)
            &&& import.result == Some(result)
            &&& import.parameters@.len() == arguments.len()
            &&& forall|i: int|
                0 <= i < arguments.len() ==> argument_typed(
                    g,
                    import.parameters@[i],
                    #[trigger] arguments[i],
                )
        },
    }
}

pub open spec fn native_family(key: SymbolKey, name: Seq<char>) -> spec_fn(
    RuntimeNativeAuthorization,
) -> bool {
    |f: RuntimeNativeAuthorization| f.key == key && text::same_ignoring_case(f.name@, name)
}

/// A call of a service that formatted texts may call is one that its family makes.
pub open spec fn dynamic_native_valid(
    program: ProgramGeneration,
    g: Graph,
    result: BytecodeType,
    key: SymbolKey,
    name: Seq<char>,
    arguments: Seq<ReferenceTermArgument>,
) -> bool {
    match lookup::first_index(program.native_authorizations@, native_family(key, name)) {
        None => false,
        Some(k) => match form_binding::family_bound(
            program.native_authorizations@[k],
            argument_shapes(program, g, arguments),
        ) {
            None => false,
            Some(bound) => bound.import.result == Some(result) && places_fit(
                bound.import.parameters,
                arguments,
            ),
        },
    }
}

pub open spec fn host_family(key: SymbolKey, name: Seq<char>) -> spec_fn(
    RuntimeHostAuthorization,
) -> bool {
    |f: RuntimeHostAuthorization| f.key == key && text::same_ignoring_case(f.name@, name)
}

/// An argument of a host call that must be a variable of some rank is one.
pub open spec fn slot_ranked(
    program: ProgramGeneration,
    g: Graph,
    family: RuntimeHostAuthorization,
    slot: int,
    a: ReferenceTermArgument,
) -> bool {
    match (form_binding::place_ranks(family, slot), a.node) {
        (Some(ranks), Some(id)) => match node_at(g, id) {
            None => false,
            Some(n) => match node_variable(program, n) {
                None => false,
                Some(v) => v.value_type == ranks.value_type && ranks.ranks@.contains(
                    v.dimensions@.len() as usize,
                ),
            },
        },
        _ => true,
    }
}

/// A host call is one that its family makes.
pub open spec fn dynamic_host_valid(
    program: ProgramGeneration,
    g: Graph,
    result: BytecodeType,
    key: SymbolKey,
    name: Seq<char>,
    arguments: Seq<ReferenceTermArgument>,
) -> bool {
    match lookup::first_index(program.host_authorizations@, host_family(key, name)) {
        None => false,
        Some(k) => {
            let family = program.host_authorizations@[k];
            &&& forall|i: int|
                0 <= i < arguments.len() ==> slot_ranked(
                    program,
                    g,
                    family,
                    i,
                    #[trigger] arguments[i],
                )
            &&& match lookup::first_index(
                family.bindings@,
                form_binding::host_shaped(argument_shapes(program, g, arguments)),
            ) {
                None => false,
                Some(b) => {
                    let import = family.bindings@[b].bound.import;
                    import.result == Some(result) && places_fit(import.parameters@, arguments)
                },
            }
        },
    }
}

/// The type of a call that the evaluation itself does.
pub open spec fn intrinsic_type(name: Seq<char>) -> Option<BytecodeType> {
    if name == "STRFORM"@ || name == "GETMETHS"@ {
        Some(BytecodeType::String)
    } else if name == "STRFORMCHECK"@ || name == "GETMETH"@ || name == "EXISTMETH"@ || name
        == "EXISTVAR"@ {
        Some(BytecodeType::Integer)
    } else {
        None
    }
}

pub open spec fn has_family(program: ProgramGeneration, name: Seq<char>) -> bool {
    exists|i: int|
        0 <= i < program.native_authorizations@.len() && text::same_ignoring_case(
            (#[trigger] program.native_authorizations@[i]).name@,
            name,
        )
}

pub open spec fn no_places(arguments: Seq<ReferenceTermArgument>) -> bool {
    forall|i: int| 0 <= i < arguments.len() ==> !(#[trigger] arguments[i]).place
}

/// A call that the evaluation itself does is allowed and well formed.
pub open spec fn intrinsic_valid(
    program: ProgramGeneration,
    result: BytecodeType,
    name: Seq<char>,
    arguments: Seq<ReferenceTermArgument>,
) -> bool {
    &&& intrinsic_type(name) == Some(result)
    &&& name == "GETMETH"@ || name == "GETMETHS"@ || name == "EXISTVAR"@ || has_family(
        program,
        name,
    )
    &&& no_places(arguments)
    &&& name != "STRFORMCHECK"@ || program.checked_runtime_forms
}

/// A node of a graph names symbols that are there.
pub open spec fn node_valid(program: ProgramGeneration, function: SymbolKey, g: Graph, n: Node) -> bool {
    match n.term {
        Term::Variable(key, indices) => match program.spec_global(key) {
            None => false,
            Some(v) => v.value_type == n.value_type && variable_reachable(
                *v,
                function,
                indices.len(),
            ) && form_reduction::variable_facts(program, key) is Some,
        },
        Term::Call(target, arguments) => match target {
            Callee::User(key) => match program.spec_function(key) {
                None => false,
                Some(f) => f.kind is Method && f.result == Some(n.value_type)
                    && user_arguments_fit(*f, arguments),
            },
            Callee::Native(key, name) => native_valid(
                program,
                g,
                n.value_type,
                key,
                name,
                arguments,
            ),
            Callee::DynamicNative(key, name) => dynamic_native_valid(
                program,
                g,
                n.value_type,
                key,
                name,
                arguments,
            ),
            Callee::Host(key, name) => dynamic_host_valid(
                program,
                g,
                n.value_type,
                key,
                name,
                arguments,
            ),
            Callee::Intrinsic(name) => intrinsic_valid(program, n.value_type, name, arguments),
        },
        _ => true,
    }
}

/// A step about reduced arguments names symbols that are there.
pub open spec fn step_valid(program: ProgramGeneration, function: SymbolKey, t: Task) -> bool {
    match t {
        Task::FinishCallTextArguments(target, _) => match program.spec_function(target) {
            None => false,
            Some(f) => !(f.kind is Method) && (!(f.kind is Event)
                || program.call_compatibility.allow_event_as_normal),
        },
        Task::CaptureReferencePlace(key, indices) => match program.spec_global(key) {
            None => false,
            Some(v) => variable_reachable(*v, function, indices as nat),
        },
        _ => true,
    }
}

/// The reduction that an evaluation holds is valid and names symbols that are there.
pub open spec fn argument_symbols_valid(form: Form, program: ProgramGeneration) -> bool {
    &&& arguments_valid(form)
    &&& match form.pending {
        None => true,
        Some(p) => {
            &&& forall|i: int|
                0 <= i < p.graph.template.nodes.len() ==> node_valid(
                    program,
                    form.function,
                    p.graph.template,
                    #[trigger] p.graph.template.nodes[i],
                )
            &&& forall|i: int|
                0 <= i < form.work.len() ==> step_valid(
                    program,
                    form.function,
                    #[trigger] form.work[i],
                )
        },
    }
}

fn is_reachable(g: &BytecodeGlobal, function: SymbolKey, indices: usize) -> (r: bool)
    ensures
        r == variable_reachable(*g, function, indices as nat),
{
    let owned = match g.owner {
        None => true,
        Some(k) => k == function,
    };
    let rank: usize = g.dimensions.len();
    owned && (indices <= rank || (g.storage == BytecodeStorage::Character && indices - rank == 1))
}

fn user_fits(f: &BytecodeFunction, arguments: &Vec<ReferenceTermArgument>) -> (r: bool)
    ensures
        r == user_arguments_fit(*f, arguments@),
{
    let mut i: usize = 0;
    while i < arguments.len()
        invariant
            i <= arguments.len(),
            forall|j: int|
                0 <= j < i ==> if j < f.parameters@.len() {
                    (#[trigger] arguments@[j]).place == f.parameters@[j].by_reference
                } else {
                    arguments@[j].node is None && !arguments@[j].place
                },
        decreases arguments.len() - i,
    {
        let a = arguments[i];
        let fits = if i < f.parameters.len() {
            a.place == f.parameters[i].by_reference
        } else {
            a.node.is_none() && !a.place
        };
        if !fits {
            assert(arguments@[i as int] == a);
            return false;
        }
        i = i + 1;
    }
    true
}

fn find_variable<'a>(program: &'a ProgramGeneration, node: &ReferenceTermNode) -> (r: Option<
    &'a BytecodeGlobal,
>)
    ensures
        match r {
            Some(v) => node_variable(*program, node@) == Some(*v),
            None => node_variable(*program, node@) is None,
        },
{
    match &node.kind {
        ReferenceTermKind::Variable { key, .. } => program.global(*key),
        _ => None,
    }
}

fn shapes_in(program: &ProgramGeneration, g: &ReferenceTermGraph, arguments: &Vec<ReferenceTermArgument>) -> (r:
    Vec<Option<RuntimeExpressionShape>>)
    ensures
        r@ == argument_shapes(*program, g@, arguments@),
{
    let ghost all = argument_shapes(*program, g@, arguments@);
    let mut out: Vec<Option<RuntimeExpressionShape>> = Vec::new();
    let mut i: usize = 0;
    assert(all.take(0) =~= Seq::<Option<RuntimeExpressionShape>>::empty());
    while i < arguments.len()
        invariant
            i <= arguments.len(),
            all == argument_shapes(*program, g@, arguments@),
            out@ == all.take(i as int),
        decreases arguments.len() - i,
    {
        let shape = match arguments[i].node {
            None => None,
            Some(id) => {
                let at: usize = id as usize;
                if at >= g.nodes.len() {
                    None
                } else {
                    assert(g@.nodes[at as int] == g.nodes@[at as int]@);
                    let node = &g.nodes[at];
                    let variable = find_variable(program, node);
                    let (known, mutable) = match variable {
                        Some(v) => (true, v.mutable),
                        None => (false, false),
                    };
                    Some(
                        RuntimeExpressionShape {
                            value_type: node.value_type,
                            variable: known,
                            mutable,
                        },
                    )
                }
            },
        };
        assert(shape == all[i as int]);
        out.push(shape);
        assert(out@ =~= all.take(i + 1));
        i = i + 1;
    }
    assert(all.take(i as int) =~= all);
    out
}

fn fit_places(parameters: &Vec<BytecodeType>, arguments: &Vec<ReferenceTermArgument>) -> (r: bool)
    ensures
        r == places_fit(parameters@, arguments@),
{
    let mut i: usize = 0;
    while i < parameters.len() && i < arguments.len()
        invariant
            i <= parameters.len(),
            i <= arguments.len(),
            forall|j: int|
                0 <= j < i ==> (#[trigger] arguments@[j]).place == form_graph::is_place(
                    parameters@[j],
                ),
        decreases parameters.len() - i,
    {
        let a = arguments[i];
        if a.place != form_graph::place_type(parameters[i]) {
            assert(arguments@[i as int] == a);
            return false;
        }
        i = i + 1;
    }
    true
}

fn is_argument_typed(g: &ReferenceTermGraph, expected: BytecodeType, a: ReferenceTermArgument) -> (r:
    bool)
    ensures
        r == argument_typed(g@, expected, a),
{
    match a.node {
        None => false,
        Some(id) => {
            let at: usize = id as usize;
            if at >= g.nodes.len() {
                return false;
            }
            assert(g@.nodes[at as int] == g.nodes@[at as int]@);
            let node = &g.nodes[at];
            let variable = match &node.kind {
                ReferenceTermKind::Variable { .. } => true,
                _ => false,
            };
            match expected {
                BytecodeType::IntegerPlace => a.place && variable && node.value_type
                    == BytecodeType::Integer,
                BytecodeType::StringPlace => a.place && variable && node.value_type
                    == BytecodeType::String,
                _ => !a.place && node.value_type == expected,
            }
        },
    }
}

fn valid_static_native(
    program: &ProgramGeneration,
    g: &ReferenceTermGraph,
    result: BytecodeType,
    key: SymbolKey,
    name: &str,
    arguments: &Vec<ReferenceTermArgument>,
) -> (r: bool)
    ensures
        r == native_valid(*program, g@, result, key, name@, arguments@),
{
    let ghost p = import_keyed(key);
    let mut k: usize = 0;
    while k < program.native_imports.len() && program.native_imports[k].import.key != key
        invariant
            k <= program.native_imports.len(),
            p == import_keyed(key),
            forall|j: int| 0 <= j < k ==> !p(#[trigger] program.native_imports@[j]),
        decreases program.native_imports.len() - k,
    {
        k = k + 1;
    }
    if k == program.native_imports.len() {
        proof {
            lookup::lemma_first_none(program.native_imports@, p);
        }
        return false;
    }
    proof {
        lookup::lemma_first_found(program.native_imports@, p, k as int);
    }
    let import = &program.native_imports[k].import;
    let typed = match import.result {
        Some(t) => t == result,
        None => false,
    };
    if !typed || !text::eq_ignore_ascii_case(import.name.as_str(), name) || import.parameters.len()
        != arguments.len() {
        return false;
    }
    let mut i: usize = 0;
    #[verifier::loop_isolation(false)]
    while i < arguments.len()
        invariant
            i <= arguments.len(),
            import.parameters@.len() == arguments@.len(),
            forall|j: int|
                0 <= j < i ==> argument_typed(
                    g@,
                    import.parameters@[j],
                    #[trigger] arguments@[j],
                ),
        decreases arguments.len() - i,
    {
        let a = arguments[i];
        if !is_argument_typed(g, import.parameters[i], a) {
            assert(!argument_typed(g@, import.parameters@[i as int], arguments@[i as int]));
            return false;
        }
        i = i + 1;
    }
    true
}

fn valid_dynamic_native(
    program: &ProgramGeneration,
    g: &ReferenceTermGraph,
    result: BytecodeType,
    key: SymbolKey,
    name: &str,
    arguments: &Vec<ReferenceTermArgument>,
) -> (r: bool)
    ensures
        r == dynamic_native_valid(*program, g@, result, key, name@, arguments@),
{
    let ghost p = native_family(key, name@);
    let mut k: usize = 0;
    while k < program.native_authorizations.len()
        invariant_except_break
            k <= program.native_authorizations.len(),
            p == native_family(key, name@),
            forall|j: int| 0 <= j < k ==> !p(#[trigger] program.native_authorizations@[j]),
        ensures
            k <= program.native_authorizations.len(),
            forall|j: int| 0 <= j < k ==> !p(#[trigger] program.native_authorizations@[j]),
            k < program.native_authorizations.len() ==> p(
                program.native_authorizations@[k as int],
            ),
        decreases program.native_authorizations.len() - k,
    {
        let family = &program.native_authorizations[k];
        if family.key == key && text::eq_ignore_ascii_case(family.name.as_str(), name) {
            break;
        }
        k = k + 1;
    }
    if k == program.native_authorizations.len() {
        proof {
            lookup::lemma_first_none(program.native_authorizations@, p);
        }
        return false;
    }
    proof {
        lookup::lemma_first_found(program.native_authorizations@, p, k as int);
    }
    let shapes = shapes_in(program, g, arguments);
    match form_binding::bind_family(&program.native_authorizations[k], &shapes) {
        None => false,
        Some(bound) => {
            let typed = match bound.import.result {
                Some(t) => t == result,
                None => false,
            };
            typed && fit_places(&bound.import.parameters, arguments)
        },
    }
}

fn ranks_fit(
    program: &ProgramGeneration,
    g: &ReferenceTermGraph,
    family: &RuntimeHostAuthorization,
    slot: usize,
    a: ReferenceTermArgument,
) -> (r: bool)
    ensures
        r == slot_ranked(*program, g@, *family, slot as int, a),
{
    let ranks = match form_binding::find_ranks(family, slot) {
        None => {
            return true;
        },
        Some(x) => x,
    };
    let at: usize = match a.node {
        None => {
            return true;
        },
        Some(id) => id as usize,
    };
    if at >= g.nodes.len() {
        return false;
    }
    assert(g@.nodes[at as int] == g.nodes@[at as int]@);
    match find_variable(program, &g.nodes[at]) {
        None => false,
        Some(v) => v.value_type == ranks.value_type && form_binding::has_rank(
            &ranks.ranks,
            v.dimensions.len(),
        ),
    }
}

fn valid_dynamic_host(
    program: &ProgramGeneration,
    g: &ReferenceTermGraph,
    result: BytecodeType,
    key: SymbolKey,
    name: &str,
    arguments: &Vec<ReferenceTermArgument>,
) -> (r: bool)
    ensures
        r == dynamic_host_valid(*program, g@, result, key, name@, arguments@),
{
    let ghost p = host_family(key, name@);
    let mut k: usize = 0;
    while k < program.host_authorizations.len()
        invariant_except_break
            k <= program.host_authorizations.len(),
            p == host_family(key, name@),
            forall|j: int| 0 <= j < k ==> !p(#[trigger] program.host_authorizations@[j]),
        ensures
            k <= program.host_authorizations.len(),
            forall|j: int| 0 <= j < k ==> !p(#[trigger] program.host_authorizations@[j]),
            k < program.host_authorizations.len() ==> p(program.host_authorizations@[k as int]),
        decreases program.host_authorizations.len() - k,
    {
        let family = &program.host_authorizations[k];
        if family.key == key && text::eq_ignore_ascii_case(family.name.as_str(), name) {
            break;
        }
        k = k + 1;
    }
    if k == program.host_authorizations.len() {
        proof {
            lookup::lemma_first_none(program.host_authorizations@, p);
        }
        return false;
    }
    proof {
        lookup::lemma_first_found(program.host_authorizations@, p, k as int);
    }
    let family = &program.host_authorizations[k];
    let mut i: usize = 0;
    #[verifier::loop_isolation(false)]
    while i < arguments.len()
        invariant
            i <= arguments.len(),
            forall|j: int|
                0 <= j < i ==> slot_ranked(*program, g@, *family, j, #[trigger] arguments@[j]),
        decreases arguments.len() - i,
    {
        let a = arguments[i];
        if !ranks_fit(program, g, family, i, a) {
            assert(!slot_ranked(*program, g@, *family, i as int, arguments@[i as int]));
            return false;
        }
        i = i + 1;
    }
    let shapes = shapes_in(program, g, arguments);
    let ghost q = form_binding::host_shaped(shapes@);
    let mut b: usize = 0;
    while b < family.bindings.len()
        invariant
            b <= family.bindings.len(),
            q == form_binding::host_shaped(shapes@),
            forall|j: int| 0 <= j < b ==> !q(#[trigger] family.bindings@[j]),
            shapes@ == argument_shapes(*program, g@, arguments@),
            k < program.host_authorizations@.len(),
            family == program.host_authorizations@[k as int],
            lookup::first_index(program.host_authorizations@, host_family(key, name@)) == Some(
                k as int,
            ),
            forall|j: int|
                0 <= j < arguments@.len() ==> slot_ranked(
                    *program,
                    g@,
                    *family,
                    j,
                    #[trigger] arguments@[j],
                ),
        decreases family.bindings.len() - b,
    {
        if crate::bit_calls::same_shapes(&family.bindings[b].shapes, &shapes) {
            proof {
                lookup::lemma_first_found(family.bindings@, q, b as int);
            }
            let import = &family.bindings[b].bound.import;
            let typed = match import.result {
                Some(t) => t == result,
                None => false,
            };
            return typed && fit_places(&import.parameters, arguments);
        }
        b = b + 1;
    }
    proof {
        lookup::lemma_first_none(family.bindings@, q);
    }
    false
}

fn family_named(program: &ProgramGeneration, name: &str) -> (r: bool)
    ensures
        r == has_family(*program, name@),
{
    let mut i: usize = 0;
    while i < program.native_authorizations.len()
        invariant
            i <= program.native_authorizations.len(),
            forall|j: int|
                0 <= j < i ==> !text::same_ignoring_case(
                    (#[trigger] program.native_authorizations@[j]).name@,
                    name@,
                ),
        decreases program.native_authorizations.len() - i,
    {
        if text::eq_ignore_ascii_case(program.native_authorizations[i].name.as_str(), name) {
            assert(text::same_ignoring_case(
                program.native_authorizations@[i as int].name@,
                name@,
            ));
            return true;
        }
        i = i + 1;
    }
    false
}

fn any_place(arguments: &Vec<ReferenceTermArgument>) -> (r: bool)
    ensures
        r == !no_places(arguments@),
{
    let mut i: usize = 0;
    while i < arguments.len()
        invariant
            i <= arguments.len(),
            forall|j: int| 0 <= j < i ==> !(#[trigger] arguments@[j]).place,
        decreases arguments.len() - i,
    {
        if arguments[i].place {
            assert(arguments@[i as int].place);
            return true;
        }
        i = i + 1;
    }
    false
}

fn valid_intrinsic(
    program: &ProgramGeneration,
    result: BytecodeType,
    name: &str,
    arguments: &Vec<ReferenceTermArgument>,
) -> (r: bool)
    ensures
        r == intrinsic_valid(*program, result, name@, arguments@),
{
    let meths = text::same_text(name, "GETMETHS");
    let meth = text::same_text(name, "GETMETH");
    let probe = text::same_text(name, "EXISTVAR");
    let check = text::same_text(name, "STRFORMCHECK");
    let kind = if meths || text::same_text(name, "STRFORM") {
        BytecodeType::String
    } else if check || meth || probe || text::same_text(name, "EXISTMETH") {
        BytecodeType::Integer
    } else {
        return false;
    };
    kind == result && (meth || meths || probe || family_named(program, name)) && !any_place(
        arguments,
    ) && (!check || program.checked_runtime_forms)
}

fn valid_node(program: &ProgramGeneration, function: SymbolKey, g: &ReferenceTermGraph, node: &ReferenceTermNode) -> (r:
    bool)
    ensures
        r == node_valid(*program, function, g@, node@),
{
    match &node.kind {
        ReferenceTermKind::Variable { key, indices } => match program.global(*key) {
            None => false,
            Some(v) => v.value_type == node.value_type && is_reachable(v, function, indices.len())
                && form_reduction::find_facts(program, *key).is_some(),
        },
        ReferenceTermKind::Call { target, arguments } => match target {
            ReferenceTermCall::User { key } => match program.function(*key) {
                None => false,
                Some(f) => {
                    let typed = match f.result {
                        Some(t) => t == node.value_type,
                        None => false,
                    };
                    f.kind == BytecodeFunctionKind::Method && typed && user_fits(f, arguments)
                },
            },
            ReferenceTermCall::Native { key, name } => valid_static_native(
                program,
                g,
                node.value_type,
                *key,
                name.as_str(),
                arguments,
            ),
            ReferenceTermCall::DynamicNative { key, name } => valid_dynamic_native(
                program,
                g,
                node.value_type,
                *key,
                name.as_str(),
                arguments,
            ),
            ReferenceTermCall::Host { key, name } => valid_dynamic_host(
                program,
                g,
                node.value_type,
                *key,
                name.as_str(),
                arguments,
            ),
            ReferenceTermCall::Intrinsic { name } => valid_intrinsic(
                program,
                node.value_type,
                name.as_str(),
                arguments,
            ),
        },
        _ => true,
    }
}

fn valid_step(program: &ProgramGeneration, function: SymbolKey, t: &RuntimeFormTask) -> (r: bool)
    ensures
        r == step_valid(*program, function, t@),
{
    match t {
        RuntimeFormTask::FinishCallTextArguments { target, .. } => match program.function(*target) {
            None => false,
            Some(f) => f.kind != BytecodeFunctionKind::Method && (f.kind
                != BytecodeFunctionKind::Event || program.call_compatibility.allow_event_as_normal),
        },
        RuntimeFormTask::CaptureReferencePlace { key, indices } => match program.global(*key) {
            None => false,
            Some(v) => is_reachable(v, function, *indices),
        },
        _ => true,
    }
}

impl RuntimeFormContinuation {
    /// Tells whether the reduction that this evaluation holds is valid and names symbols that are
    /// there.
    #[verifier::loop_isolation(false)]
    pub fn valid_reference_argument_symbols(&self, program: &ProgramGeneration) -> (r: bool)
        ensures
            r == argument_symbols_valid(self@, *program),
    {
        if !self.reference_arguments_valid() {
            return false;
        }
        let pending = match &self.reference_arguments {
            None => {
                return true;
            },
            Some(p) => p,
        };
        let g = &pending.graph.template;
        let ghost nodes = g@.nodes;
        let ghost work = self@.work;
        assert(nodes.len() == g.nodes@.len());
        assert(work.len() == self.work@.len());
        let mut i: usize = 0;
        while i < g.nodes.len()
            invariant
                i <= g.nodes.len(),
                nodes == g@.nodes,
                nodes.len() == g.nodes@.len(),
                forall|j: int|
                    0 <= j < i ==> node_valid(*program, self.function, g@, #[trigger] nodes[j]),
            decreases g.nodes.len() - i,
        {
            assert(nodes[i as int] == g.nodes@[i as int]@);
            if !valid_node(program, self.function, g, &g.nodes[i]) {
                assert(!node_valid(*program, self.function, g@, nodes[i as int]));
                return false;
            }
            i = i + 1;
        }
        let mut i: usize = 0;
        while i < self.work.len()
            invariant
                i <= self.work.len(),
                work == self@.work,
                work.len() == self.work@.len(),
                forall|j: int|
                    0 <= j < i ==> step_valid(*program, self.function, #[trigger] work[j]),
            decreases self.work.len() - i,
        {
            assert(work[i as int] == self.work@[i as int]@);
            if !valid_step(program, self.function, &self.work[i]) {
                assert(!step_valid(*program, self.function, work[i as int]));
                return false;
            }
            i = i + 1;
        }
        true
    }
}

/// An evaluation belongs to a frame, and stays within the limits of the machine.
pub open spec fn frame_valid(
    form: Form,
    generation: GenerationId,
    function: SymbolKey,
    frame: FrameId,
    maximum: usize,
) -> bool {
    &&& form.generation == generation
    &&& form.function == function
    &&& form.frame == frame
    &&& form.work.len() <= maximum
    &&& form.values.len() <= maximum
    &&& form.outputs.len() <= MAX_RUNTIME_FORM_NESTING
    &&& form.remaining_nodes <= maximum
    &&& form.remaining_bytes <= MAX_RUNTIME_FORM_BYTES
    &&& crate::form_hosts::scopes_valid(form)
    &&& crate::form_checkpoints::checkpoints_valid(form)
    &&& within(crate::form_hosts::hosts_weight(form.host_calls), maximum)
    &&& arguments_valid(form)
    &&& within(pending_weight(form.pending), maximum)
}

/// Slots and bytes stay within the limits of the machine.
pub open spec fn within(t: Tally, maximum: usize) -> bool {
    t.fits() && t.slots <= maximum && t.bytes <= MAX_RUNTIME_FORM_BYTES
}

fn is_within(count: Option<(usize, usize)>, maximum: usize) -> (r: bool)
    ensures
        forall|t: Tally| form_resources::counted(count, t) ==> r == within(t, maximum),
{
    match count {
        None => false,
        Some((slots, bytes)) => slots <= maximum && bytes <= MAX_RUNTIME_FORM_BYTES,
    }
}

impl RuntimeFormContinuation {
    /// Tells whether this evaluation belongs to a frame and stays within the limits of the machine.
    pub fn valid_for_frame(
        &self,
        generation: GenerationId,
        function: SymbolKey,
        frame: FrameId,
        maximum_stack: usize,
    ) -> (r: bool)
        ensures
            r == frame_valid(self@, generation, function, frame, maximum_stack),
    {
        assert(self@.work.len() == self.work@.len());
        assert(self@.values.len() == self.values@.len());
        assert(self@.outputs.len() == self.outputs@.len());
        self.generation == generation && self.function == function && self.frame == frame
            && self.work.len() <= maximum_stack && self.values.len() <= maximum_stack
            && self.outputs.len() <= MAX_RUNTIME_FORM_NESTING && self.remaining_nodes
            <= maximum_stack && self.remaining_source_bytes <= MAX_RUNTIME_FORM_BYTES
            && self.host_scopes_valid() && self.checkpoints_valid() && is_within(
            self.host_resources(),
            maximum_stack,
        ) && self.reference_arguments_valid() && is_within(
            self.reference_argument_resources(),
            maximum_stack,
        )
    }
}

} // verus!
