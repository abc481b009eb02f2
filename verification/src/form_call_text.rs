//! Calls whose target and arguments are given as text.

use vstd::prelude::*;
use std::rc::Rc;
use crate::ast::{self, Expr, Tree};
use crate::existvar::invalid;
use crate::fault::{self, FaultCategory, Failure, ScriptFaultKind, StepError, Trouble, VmFaultCode};
use crate::form_binding::{self, NativeProviders};
use crate::form_checkpoints;
use crate::form_frontend;
use crate::form_graph::{self, GraphBuilder};
use crate::form_methods;
use crate::form_plans;
use crate::form_pump;
use crate::form_resources;
use crate::form_terms;
use crate::form_typing::{self, Found, Rules, TypeAnalysis};
use crate::forms::{
    self, Edge, Form, FormatCheckpointKind, PendingReferenceArguments, Prepared, Resolved,
    RuntimeCallPlan, RuntimeFormContinuation, RuntimeFormRoot, RuntimeFormTask, RuntimePlanSource,
    Source, Task, TermRef, UserCall,
};
use crate::program::{CallTextSpec, ProgramGeneration, UserArgumentSpec};
use crate::state::{Fiber, FiberModel, ResolvedUserCall, Vm, VmModel};
use crate::terms::{Graph, ReferenceTermGraph};
use crate::text;
use crate::value::{BytecodeType, SymbolKey};

verus! {

/// An argument as the parser of call texts gives it.
#[derive(PartialEq, Eq, Debug)]
pub enum CallTextArgument {
    Expression(Rc<Expr>),
    Omitted,
    /// Something that no argument of a call can be.
    Other,
}

/// Mathematical content of a [`CallTextArgument`].
pub enum TextArgument {
    Expression(Tree),
    Omitted,
    Other,
}

impl View for CallTextArgument {
    type V = TextArgument;

    open spec fn view(&self) -> TextArgument {
        match self {
            CallTextArgument::Expression(e) => TextArgument::Expression(e@),
            CallTextArgument::Omitted => TextArgument::Omitted,
            CallTextArgument::Other => TextArgument::Other,
        }
    }
}

pub open spec fn argument_views(s: Seq<CallTextArgument>) -> Seq<TextArgument> {
    s.map_values(|a: CallTextArgument| a@)
}

/// What the parser of call texts made of a source.
#[derive(PartialEq, Eq, Debug)]
pub enum ParsedCallText {
    /// The source cannot be read; `in_arguments` tells whether that came to light in its arguments.
    Failed { in_arguments: bool, diagnostics: Vec<String> },
    /// There is nothing to call.
    Blank,
    Call { target: String, arguments: Vec<CallTextArgument> },
}

/// Mathematical content of a [`ParsedCallText`].
pub enum CallText {
    Failed(bool, Seq<Seq<char>>),
    Blank,
    Call(Seq<char>, Seq<TextArgument>),
}

impl View for ParsedCallText {
    type V = CallText;

    open spec fn view(&self) -> CallText {
        match self {
            ParsedCallText::Failed { in_arguments, diagnostics } => CallText::Failed(
                *in_arguments,
                form_frontend::lines(diagnostics@),
            ),
            ParsedCallText::Blank => CallText::Blank,
            ParsedCallText::Call { target, arguments } => CallText::Call(
                target@,
                argument_views(arguments@),
            ),
        }
    }
}

/// The arguments of a call text as expressions.
pub open spec fn text_arguments(s: Seq<TextArgument>) -> Result<Seq<Option<Tree>>, Failure>
    decreases s.len(),
{
    if s.len() == 0 {
        Ok(Seq::empty())
    } else {
        match text_arguments(s.drop_last()) {
            Err(e) => Err(e),
            Ok(before) => match s.last() {
                TextArgument::Expression(t) => Ok(before.push(Some(t))),
                TextArgument::Omitted => Ok(before.push(None)),
                TextArgument::Other => Err(
                    Failure::invalid("CALLSTR parser produced an invalid actual shape"@),
                ),
            },
        }
    }
}

/// A call text is taken; it is parsed next.
pub open spec fn text_begun(vm: VmModel, form: Form, source: Seq<char>) -> (
    Form,
    Result<(), Failure>,
) {
    if form_resources::size(source) > form.remaining_bytes {
        (
            form,
            Err(
                form_resources::resource_failure(
                    "CALLSTR source exceeds the runtime parser limit"@,
                ),
            ),
        )
    } else {
        let paid = Form {
            remaining_bytes: (form.remaining_bytes - form_resources::size(source)) as usize,
            ..form
        };
        match form_frontend::preflighted(source) {
            Err(e) => (paid, Err(e)),
            Ok(_) => match vm.program(form.generation) {
                None => (paid, Err(text_generation_missing())),
                Some(_) => (paid, Ok(())),
            },
        }
    }
}

pub open spec fn text_generation_missing() -> Failure {
    Failure::of(VmFaultCode::MissingSymbol, "CALLSTR generation is missing"@)
}

/// A call text fails where it may.
pub open spec fn text_failed(form: Form, spec: CallTextSpec) -> (Form, Result<(), Failure>) {
    match form.completion {
        RuntimeFormRoot::Call { spec: root, .. } => if root == spec {
            (
                Form { completion: RuntimeFormRoot::Call { spec, failed: true }, ..form },
                Ok(()),
            )
        } else {
            (form, Err(Failure::invalid("CALLSTR failure root differs"@)))
        },
        _ => (form, Err(Failure::invalid("CALLSTR failure root differs"@))),
    }
}

/// One more count taken off, but not below zero.
pub open spec fn lowered(n: usize, by: usize) -> usize {
    if n >= by {
        (n - by) as usize
    } else {
        0
    }
}

/// The arguments of a call text are typed, and a plan and a graph are made of them.
pub open spec fn text_prepared(
    program: ProgramGeneration,
    providers: NativeProviders,
    form: Form,
    arguments: Seq<Option<Tree>>,
) -> (Form, Result<Graph, Failure>) {
    match form_frontend::named_arguments(program, form.function, arguments, 0) {
        Err(e) => (form, Err(e)),
        Ok(named) => {
            let c = Rules {
                program,
                function: form.function,
                probe: false,
                providers: Some(providers),
                limit: form.remaining_nodes,
            };
            let start = Found { nodes: 0, types: Seq::empty(), calls: Seq::empty() };
            match form_typing::typed_arguments(c, start, named, 0) {
                (_, Err(e)) => (form, Err(e)),
                (found, Ok(_)) => {
                    let paid = Form {
                        remaining_nodes: lowered(form.remaining_nodes, found.nodes),
                        ..form
                    };
                    match form_graph::graph_of(
                        form_graph::Schema {
                            program,
                            function: form.function,
                            types: found.types,
                        },
                        named,
                    ) {
                        Err(e) => (paid, Err(e)),
                        Ok(graph) => match form_plans::plan_of(Source::Arguments(named), found) {
                            Err(e) => (paid, Err(e)),
                            Ok(plan) => match form_plans::installed(paid, plan) {
                                (after, Err(e)) => (after, Err(e)),
                                (after, Ok(_)) => (after, Ok(graph)),
                            },
                        },
                    }
                },
            }
        },
    }
}

/// A failure of the arguments that a call text may have.
pub open spec fn is_forgiven(e: Failure) -> bool {
    match e.category {
        FaultCategory::Script(ScriptFaultKind::Resolve) => true,
        FaultCategory::Script(ScriptFaultKind::Argument) => true,
        _ => false,
    }
}

/// The call that a text stands for is looked up, and its arguments are reduced next. `kind` is what
/// is said of the kind of the callee.
pub open spec fn text_targeted(
    program: ProgramGeneration,
    form: Form,
    spec: CallTextSpec,
    target: Seq<char>,
    graph: Graph,
    kind: Result<(), Failure>,
) -> (Form, Result<(), Failure>) {
    match program.spec_function_by_name(target) {
        None => if spec.allow_missing {
            text_failed(form, spec)
        } else {
            (
                form,
                Err(
                    Failure::script(
                        ScriptFaultKind::Resolve,
                        VmFaultCode::MissingSymbol,
                        "CALLSTR target "@ + target + " is missing"@,
                    ),
                ),
            )
        },
        Some(f) => match kind {
            Err(e) => (form, Err(e)),
            Ok(_) => (
                Form {
                    pending: Some(form_pump::started(graph, f.parameters@.len() as int)),
                    ..form
                }.with_task(Task::FinishCallTextArguments(f.key, spec)).with_task(
                    Task::ReferenceArgumentsPump,
                ),
                Ok(()),
            ),
        },
    }
}

/// A parsed call text goes on to its arguments.
pub open spec fn text_parsed(
    vm: VmModel,
    providers: NativeProviders,
    form: Form,
    spec: CallTextSpec,
    parsed: CallText,
    kind: Result<(), Failure>,
) -> (Form, Result<(), Failure>) {
    match vm.program(form.generation) {
        None => (form, Err(text_generation_missing())),
        Some(program) => match parsed {
            CallText::Failed(arguments, diagnostics) => if arguments && spec.allow_missing {
                text_failed(form, spec)
            } else {
                (
                    form,
                    Err(
                        Failure::script(
                            ScriptFaultKind::Parse,
                            VmFaultCode::Native,
                            form_frontend::listing(diagnostics),
                        ),
                    ),
                )
            },
            CallText::Blank => (form, Ok(())),
            CallText::Call(target, actuals) => match text_arguments(actuals) {
                Err(e) => (form, Err(e)),
                Ok(arguments) => match text_prepared(program, providers, form, arguments) {
                    (after, Err(e)) => if spec.allow_missing && is_forgiven(e) {
                        text_failed(after, spec)
                    } else {
                        (after, Err(e))
                    },
                    (after, Ok(graph)) => text_targeted(
                        program,
                        after,
                        spec,
                        target,
                        graph,
                        kind,
                    ),
                },
            },
        },
    }
}

fn convert_arguments(arguments: &Vec<CallTextArgument>) -> (r: Result<
    Vec<Option<Rc<Expr>>>,
    StepError,
>)
    ensures
        form_terms::arguments_result(r) == text_arguments(argument_views(arguments@)),
{
    let ghost all = argument_views(arguments@);
    let mut out: Vec<Option<Rc<Expr>>> = Vec::new();
    let mut i: usize = 0;
    proof {
        assert(all.take(0) =~= Seq::<TextArgument>::empty());
        ast::lemma_argument_trees(out@);
        assert(ast::argument_trees(out@) =~= Seq::<Option<Tree>>::empty());
    }
    while i < arguments.len()
        invariant
            i <= arguments.len(),
            all == argument_views(arguments@),
            text_arguments(all.take(i as int)) == Ok::<Seq<Option<Tree>>, Failure>(
                ast::argument_trees(out@),
            ),
        decreases arguments.len() - i,
    {
        let ghost before = out@;
        proof {
            assert(all[i as int] == arguments@[i as int]@);
            assert(all.take(i + 1).drop_last() =~= all.take(i as int));
        }
        match &arguments[i] {
            CallTextArgument::Expression(e) => {
                out.push(Some(e.clone()));
            },
            CallTextArgument::Omitted => {
                out.push(None);
            },
            CallTextArgument::Other => {
                proof {
                    lemma_text_stop(all, i + 1);
                }
                return Err(invalid("CALLSTR parser produced an invalid actual shape"));
            },
        }
        proof {
            assert(out@.drop_last() =~= before);
            ast::lemma_argument_trees(out@);
            ast::lemma_argument_trees(before);
            assert(ast::argument_trees(out@) =~= ast::argument_trees(before).push(
                ast::argument_tree(out@.last()),
            ));
        }
        i = i + 1;
    }
    assert(all.take(i as int) =~= all);
    Ok(out)
}

proof fn lemma_text_stop(s: Seq<TextArgument>, n: int)
    requires
        0 <= n <= s.len(),
        text_arguments(s.take(n)) is Err,
    ensures
        text_arguments(s) == text_arguments(s.take(n)),
    decreases s.len() - n,
{
    if n == s.len() {
        assert(s.take(n) =~= s);
    } else {
        assert(s.take(n + 1).drop_last() =~= s.take(n));
        lemma_text_stop(s, n + 1);
    }
}

pub open spec fn graph_result(r: Result<ReferenceTermGraph, StepError>) -> Result<Graph, Failure> {
    match r {
        Ok(g) => Ok(g@),
        Err(e) => Err(e@),
    }
}

impl RuntimeFormContinuation {
    /// Takes a call text; it is parsed next.
    pub fn begin_call_text(&mut self, vm: &Vm, source: &str) -> (r: Result<(), StepError>)
        ensures
            (final(self)@, form_resources::unit_result(r)) == text_begun(
                vm@,
                old(self)@,
                source@,
            ),
    {
        let bytes: usize = form_resources::byte_count(source);
        if bytes > self.remaining_source_bytes {
            return Err(
                form_resources::resource_limit("CALLSTR source exceeds the runtime parser limit"),
            );
        }
        self.remaining_source_bytes = self.remaining_source_bytes - bytes;
        match form_frontend::preflight_nesting(source) {
            Err(e) => {
                return Err(e);
            },
            Ok(_) => {},
        }
        match vm.program(self.generation) {
            None => Err(StepError::new(VmFaultCode::MissingSymbol, "CALLSTR generation is missing")),
            Some(_) => Ok(()),
        }
    }

    fn fail_call_text(&mut self, spec: CallTextSpec) -> (r: Result<(), StepError>)
        ensures
            (final(self)@, form_resources::unit_result(r)) == text_failed(old(self)@, spec),
    {
        match self.completion {
            RuntimeFormRoot::Call { spec: root, .. } => {
                if root == spec {
                    self.completion = RuntimeFormRoot::Call { spec, failed: true };
                    return Ok(());
                }
            },
            _ => {},
        }
        Err(invalid("CALLSTR failure root differs"))
    }

    fn prepare_call_text_arguments(
        &mut self,
        program: &ProgramGeneration,
        natives: &NativeProviders,
        arguments: &Vec<Option<Rc<Expr>>>,
    ) -> (r: Result<ReferenceTermGraph, StepError>)
        requires
            form_typing::results_scalar(*program),
        ensures
            (final(self)@, graph_result(r)) == text_prepared(
                *program,
                *natives,
                old(self)@,
                ast::argument_trees(arguments@),
            ),
    {
        let named = match form_frontend::resolve_arguments(program, self.function, arguments, 0) {
            Err(e) => {
                return Err(e);
            },
            Ok(v) => v,
        };
        let mut analysis = TypeAnalysis::new(
            program,
            self.function,
            false,
            self.remaining_nodes,
            Some(natives),
        );
        match form_plans::analyze_arguments(&mut analysis, &named) {
            Err(e) => {
                return Err(e);
            },
            Ok(_) => {},
        }
        let nodes: usize = analysis.nodes();
        self.remaining_nodes = if self.remaining_nodes >= nodes {
            self.remaining_nodes - nodes
        } else {
            0
        };
        let mut builder = GraphBuilder::new(program, self.function, &analysis.source_types);
        let graph = match builder.build(&named) {
            Err(e) => {
                return Err(e);
            },
            Ok(g) => g,
        };
        let plan = match RuntimeCallPlan::from_analysis(
            RuntimePlanSource::Arguments(named),
            analysis,
        ) {
            Err(e) => {
                return Err(e);
            },
            Ok(p) => p,
        };
        match self.install_call_plan(plan) {
            Err(e) => Err(e),
            Ok(_) => Ok(graph),
        }
    }
}

impl RuntimeFormContinuation {
    /// Goes on with a parsed call text: its arguments are reduced next. `kind` is what is said of
    /// the kind of the callee.
    pub fn parse_call_text(
        &mut self,
        vm: &Vm,
        natives: &NativeProviders,
        spec: CallTextSpec,
        parsed: ParsedCallText,
        kind: Result<(), StepError>,
    ) -> (r: Result<(), StepError>)
        requires
            vm@.program(old(self)@.generation) matches Some(p) ==> form_typing::results_scalar(p),
        ensures
            (final(self)@, form_resources::unit_result(r)) == text_parsed(
                vm@,
                *natives,
                old(self)@,
                spec,
                parsed@,
                form_resources::unit_result(kind),
            ),
    {
        let program = match vm.program(self.generation) {
            None => {
                return Err(
                    StepError::new(VmFaultCode::MissingSymbol, "CALLSTR generation is missing"),
                );
            },
            Some(p) => p,
        };
        let (target, actuals) = match parsed {
            ParsedCallText::Failed { in_arguments, diagnostics } => {
                if in_arguments && spec.allow_missing {
                    return self.fail_call_text(spec);
                }
                let message = form_frontend::join_lines(&diagnostics);
                return Err(
                    StepError::script(
                        ScriptFaultKind::Parse,
                        VmFaultCode::Native,
                        message.as_str(),
                    ),
                );
            },
            ParsedCallText::Blank => {
                return Ok(());
            },
            ParsedCallText::Call { target, arguments } => (target, arguments),
        };
        let arguments = match convert_arguments(&actuals) {
            Err(e) => {
                return Err(e);
            },
            Ok(v) => v,
        };
        let graph = match self.prepare_call_text_arguments(&program, natives, &arguments) {
            Err(e) => {
                let forgiven = match e.category {
                    FaultCategory::Script(ScriptFaultKind::Resolve) => true,
                    FaultCategory::Script(ScriptFaultKind::Argument) => true,
                    _ => false,
                };
                if spec.allow_missing && forgiven {
                    return self.fail_call_text(spec);
                }
                return Err(e);
            },
            Ok(g) => g,
        };
        let function = match program.function_by_name(target.as_str()) {
            None => {
                if spec.allow_missing {
                    return self.fail_call_text(spec);
                }
                let message = text::join3("CALLSTR target ", target.as_str(), " is missing");
                return Err(
                    StepError::script(
                        ScriptFaultKind::Resolve,
                        VmFaultCode::MissingSymbol,
                        message.as_str(),
                    ),
                );
            },
            Some(f) => f,
        };
        match kind {
            Err(e) => {
                return Err(e);
            },
            Ok(_) => {},
        }
        self.reference_arguments = Some(
            PendingReferenceArguments::new(graph, function.parameters.len()),
        );
        self.push_task(RuntimeFormTask::FinishCallTextArguments { target: function.key, spec });
        self.push_task(RuntimeFormTask::ReferenceArgumentsPump);
        Ok(())
    }
}

/// The expressions of the reduced arguments.
pub open spec fn root_trees(program: ProgramGeneration, g: Prepared, roots: Seq<Option<Edge>>) -> Result<
    Seq<Option<Tree>>,
    Failure,
>
    decreases roots.len(),
{
    if roots.len() == 0 {
        Ok(Seq::empty())
    } else {
        match root_trees(program, g, roots.drop_last()) {
            Err(e) => Err(e),
            Ok(before) => match roots.last() {
                None => Ok(before.push(None)),
                Some(e) => match form_terms::term_tree(
                    program,
                    g,
                    e,
                    g.template.nodes.len(),
                ) {
                    Err(x) => Err(x),
                    Ok(t) => Ok(before.push(Some(t))),
                },
            },
        }
    }
}

/// The type of a reduced argument.
pub open spec fn edge_type(g: Prepared, e: Edge) -> BytecodeType {
    match e {
        Edge::Single(l) => l.value_type(),
        Edge::Original(id) => g.template.nodes[id as int].value_type,
    }
}

/// How reduced arguments are passed to a user function.
pub open spec fn root_specs(
    program: ProgramGeneration,
    function: SymbolKey,
    g: Prepared,
    trees: Seq<Option<Tree>>,
) -> Seq<UserArgumentSpec> {
    Seq::new(
        trees.len(),
        |i: int|
            match (g.roots[i], trees[i]) {
                (Some(e), Some(t)) => form_typing::argument_spec(
                    program,
                    function,
                    t,
                    edge_type(g, e),
                ),
                _ => UserArgumentSpec::Omitted,
            },
    )
}

/// Every root of a graph is one of its terms.
pub open spec fn roots_known(g: Prepared) -> bool {
    forall|i: int|
        0 <= i < g.roots.len() ==> (#[trigger] g.roots[i] matches Some(e) ==> form_pump::term_known(
            g,
            e,
        ))
}

/// The call of the last step gets the boundary that its arguments are bound in.
pub open spec fn bounded(form: Form, id: u64) -> Form {
    match form.work.last() {
        Task::MethodArgument(call) => Form {
            work: form.work.drop_last().push(
                Task::MethodArgument(UserCall { argument_checkpoint: Some(id), ..call }),
            ),
            ..form
        },
        _ => form,
    }
}

/// A call with reduced arguments is scheduled; where it may fail, inside a boundary.
pub open spec fn text_queued(
    vm: VmModel,
    fiber: FiberModel,
    form: Form,
    spec: CallTextSpec,
    call: Resolved,
    specs: Seq<UserArgumentSpec>,
    trees: Seq<Option<Tree>>,
) -> (VmModel, Form, Result<(), Failure>) {
    let held = Form {
        reference_bindings: true,
        ..form.with_task(Task::ReleaseReferenceArguments)
    };
    if !spec.allow_missing {
        form_methods::call_queued(vm, held, call, specs, trees)
    } else {
        match form_checkpoints::opened(
            held,
            fiber,
            FormatCheckpointKind::CallTextArguments(spec),
            "CALLSTR argument checkpoint identity exhausted"@,
        ) {
            (open, Err(e)) => (vm, open, Err(e)),
            (open, Ok(id)) => match form_methods::call_queued(vm, open, call, specs, trees) {
                (after, queued, Err(e)) => (after, queued, Err(e)),
                (after, queued, Ok(_)) => (after, bounded(queued, id), Ok(())),
            },
        }
    }
}

/// The reduced arguments of a call text are bound to the parameters of the callee.
pub open spec fn text_bound(
    vm: VmModel,
    fiber: FiberModel,
    form: Form,
    target: SymbolKey,
    spec: CallTextSpec,
) -> (VmModel, Form, Result<(), Failure>) {
    let gone = Failure::of(VmFaultCode::MissingSymbol, "CALLSTR target disappeared"@);
    match vm.program(form.generation) {
        None => (
            vm,
            form,
            Err(Failure::of(VmFaultCode::MissingSymbol, "CALLSTR generation disappeared"@)),
        ),
        Some(program) => match program.spec_function(target) {
            None => (vm, form, Err(gone)),
            Some(f) => if form.pending is None || form.pending->0.preparing {
                (vm, form, Err(Failure::invalid("CALLSTR binding preceded restructuring"@)))
            } else {
                let g = form.pending->0.graph;
                match root_trees(program, g, g.roots) {
                    Err(e) => (vm, form, Err(e)),
                    Ok(trees) => {
                        let specs = root_specs(program, form.function, g, trees);
                        match form_binding::user_resolved(program, f.name@, spec.mode(), specs) {
                            Err(e) => if spec.allow_missing && is_argument_failure(e) {
                                let (after, r) = text_failed(Form { pending: None, ..form }, spec);
                                (vm, after, r)
                            } else {
                                (vm, form, Err(fault::mapped(e)))
                            },
                            Ok(None) => (vm, form, Err(gone)),
                            Ok(Some(call)) => text_queued(
                                vm,
                                fiber,
                                form,
                                spec,
                                call,
                                specs,
                                trees,
                            ),
                        }
                    },
                }
            },
        },
    }
}

/// A failure of the arguments themselves.
pub open spec fn is_argument_failure(e: Trouble) -> bool {
    fault::mapped(e).category == FaultCategory::Script(ScriptFaultKind::Argument)
}

proof fn lemma_roots_stop(
    program: ProgramGeneration,
    g: Prepared,
    roots: Seq<Option<Edge>>,
    n: int,
)
    requires
        0 <= n <= roots.len(),
        root_trees(program, g, roots.take(n)) is Err,
    ensures
        root_trees(program, g, roots) == root_trees(program, g, roots.take(n)),
    decreases roots.len() - n,
{
    if n == roots.len() {
        assert(roots.take(n) =~= roots);
    } else {
        assert(roots.take(n + 1).drop_last() =~= roots.take(n));
        lemma_roots_stop(program, g, roots, n + 1);
    }
}

#[verifier::loop_isolation(false)]
fn root_expressions(program: &ProgramGeneration, p: &PendingReferenceArguments) -> (r: Result<
    Vec<Option<Rc<Expr>>>,
    StepError,
>)
    ensures
        form_terms::arguments_result(r) == root_trees(*program, p@.graph, p@.graph.roots),
        r matches Ok(v) ==> v@.len() == p@.graph.roots.len(),
        r matches Ok(v) ==> forall|i: int|
            0 <= i < v@.len() ==> ((#[trigger] v@[i]) is Some) == (p@.graph.roots[i] is Some),
{
    let ghost g = p@.graph;
    let ghost roots = g.roots;
    assert(roots.len() == p.graph.roots@.len());
    let mut out: Vec<Option<Rc<Expr>>> = Vec::new();
    let mut i: usize = 0;
    proof {
        assert(roots.take(0) =~= Seq::<Option<Edge>>::empty());
        ast::lemma_argument_trees(out@);
        assert(ast::argument_trees(out@) =~= Seq::<Option<Tree>>::empty());
    }
    while i < p.graph.roots.len()
        invariant
            i <= p.graph.roots.len(),
            out@.len() == i,
            root_trees(*program, g, roots.take(i as int)) == Ok::<Seq<Option<Tree>>, Failure>(
                ast::argument_trees(out@),
            ),
            forall|j: int| 0 <= j < i ==> ((#[trigger] out@[j]) is Some) == (roots[j] is Some),
        decreases p.graph.roots.len() - i,
    {
        let ghost before = out@;
        proof {
            assert(roots[i as int] == forms::optional_edge(p.graph.roots@[i as int]));
            assert(roots.take(i + 1).drop_last() =~= roots.take(i as int));
        }
        match &p.graph.roots[i] {
            None => {
                out.push(None);
            },
            Some(t) => match p.graph.expression(program, t) {
                Err(e) => {
                    proof {
                        lemma_roots_stop(*program, g, roots, i + 1);
                    }
                    return Err(e);
                },
                Ok(e) => {
                    out.push(Some(e));
                },
            },
        }
        proof {
            assert(out@.drop_last() =~= before);
            ast::lemma_argument_trees(out@);
            ast::lemma_argument_trees(before);
            assert(ast::argument_trees(out@) =~= ast::argument_trees(before).push(
                ast::argument_tree(out@.last()),
            ));
        }
        i = i + 1;
    }
    assert(roots.take(i as int) =~= roots);
    Ok(out)
}

fn argument_specs(
    program: &ProgramGeneration,
    function: SymbolKey,
    p: &PendingReferenceArguments,
    arguments: &Vec<Option<Rc<Expr>>>,
) -> (r: Vec<UserArgumentSpec>)
    requires
        roots_known(p@.graph),
        arguments@.len() == p@.graph.roots.len(),
    ensures
        r@ == root_specs(*program, function, p@.graph, ast::argument_trees(arguments@)),
{
    let ghost g = p@.graph;
    let ghost all = root_specs(*program, function, g, ast::argument_trees(arguments@));
    proof {
        ast::lemma_argument_trees(arguments@);
    }
    assert(g.roots.len() == p.graph.roots@.len());
    assert(g.template.nodes.len() == p.graph.template.nodes@.len());
    let mut out: Vec<UserArgumentSpec> = Vec::new();
    let mut i: usize = 0;
    while i < arguments.len()
        invariant
            i <= arguments.len(),
            g == p@.graph,
            roots_known(g),
            arguments@.len() == g.roots.len(),
            g.roots.len() == p.graph.roots@.len(),
            g.template.nodes.len() == p.graph.template.nodes@.len(),
            all == root_specs(*program, function, g, ast::argument_trees(arguments@)),
            ast::argument_trees(arguments@).len() == arguments@.len(),
            forall|j: int|
                0 <= j < arguments@.len() ==> #[trigger] ast::argument_trees(arguments@)[j]
                    == ast::argument_tree(arguments@[j]),
            out@ == all.take(i as int),
        decreases arguments.len() - i,
    {
        assert(g.roots[i as int] == forms::optional_edge(p.graph.roots@[i as int]));
        assert(ast::argument_trees(arguments@)[i as int] == ast::argument_tree(
            arguments@[i as int],
        ));
        let spec = match (&p.graph.roots[i], &arguments[i]) {
            (Some(t), Some(e)) => {
                let kind = match t {
                    TermRef::Single(v) => v.value_type(),
                    TermRef::Original(id) => {
                        let at: usize = *id as usize;
                        assert(g.template.nodes[at as int] == p.graph.template.nodes@[at as int]@);
                        p.graph.template.nodes[at].value_type
                    },
                };
                form_typing::shape_spec(program, function, e, kind)
            },
            _ => UserArgumentSpec::Omitted,
        };
        out.push(spec);
        assert(out@ =~= all.take(i + 1));
        i = i + 1;
    }
    assert(all.take(i as int) =~= all);
    out
}

impl RuntimeFormContinuation {
    fn queue_call_text(
        &mut self,
        vm: &mut Vm,
        fiber: &Fiber,
        spec: CallTextSpec,
        call: Rc<ResolvedUserCall>,
        specs: Vec<UserArgumentSpec>,
        arguments: Vec<Option<Rc<Expr>>>,
    ) -> (r: Result<(), StepError>)
        ensures
            (final(vm)@, final(self)@, form_resources::unit_result(r)) == text_queued(
                old(vm)@,
                fiber@,
                old(self)@,
                spec,
                call@,
                specs@,
                ast::argument_trees(arguments@),
            ),
    {
        self.push_task(RuntimeFormTask::ReleaseReferenceArguments);
        self.reference_bindings = true;
        if !spec.allow_missing {
            return self.queue_resolved_call(vm, call, specs, arguments);
        }
        let id: u64 = match self.open_checkpoint(
            fiber,
            FormatCheckpointKind::CallTextArguments(spec),
            "CALLSTR argument checkpoint identity exhausted",
        ) {
            Err(e) => {
                return Err(e);
            },
            Ok(id) => id,
        };
        match self.queue_resolved_call(vm, call, specs, arguments) {
            Err(e) => {
                return Err(e);
            },
            Ok(_) => {},
        }
        let ghost queued = self@;
        assert(queued.work.len() == self.work@.len());
        match self.work.pop() {
            None => {},
            Some(task) => {
                assert(forms::task_views(self.work@) =~= queued.work.drop_last());
                assert(queued.work.last() == task@);
                let task = match task {
                    RuntimeFormTask::MethodArgument(call) => {
                        let mut call = call;
                        call.argument_checkpoint = Some(id);
                        RuntimeFormTask::MethodArgument(call)
                    },
                    other => other,
                };
                self.push_task(task);
                assert(self@.work =~= bounded(queued, id).work);
            },
        }
        Ok(())
    }

    /// Binds the reduced arguments of a call text to the parameters of the callee.
    pub fn finish_call_text_arguments(
        &mut self,
        vm: &mut Vm,
        fiber: &Fiber,
        target: SymbolKey,
        spec: CallTextSpec,
    ) -> (r: Result<(), StepError>)
        requires
            old(self)@.pending matches Some(p) ==> roots_known(p.graph),
        ensures
            (final(vm)@, final(self)@, form_resources::unit_result(r)) == text_bound(
                old(vm)@,
                fiber@,
                old(self)@,
                target,
                spec,
            ),
    {
        let gone = "CALLSTR target disappeared";
        let program = match vm.program(self.generation) {
            None => {
                return Err(
                    StepError::new(VmFaultCode::MissingSymbol, "CALLSTR generation disappeared"),
                );
            },
            Some(p) => p,
        };
        let function = match program.function(target) {
            None => {
                return Err(StepError::new(VmFaultCode::MissingSymbol, gone));
            },
            Some(f) => f,
        };
        let early = "CALLSTR binding preceded restructuring";
        let pending = match &self.reference_arguments {
            None => {
                return Err(invalid(early));
            },
            Some(p) => p,
        };
        if pending.preparing {
            return Err(invalid(early));
        }
        let arguments = match root_expressions(&program, pending) {
            Err(e) => {
                return Err(e);
            },
            Ok(v) => v,
        };
        let specs = argument_specs(&program, self.function, pending, &arguments);
        match form_binding::resolve_user_call(
            &program,
            function.name.as_str(),
            spec.user_call_mode(),
            &specs,
        ) {
            Err(e) => {
                let failure = fault::map_vm_error(e);
                let forgiven = match failure.category {
                    FaultCategory::Script(ScriptFaultKind::Argument) => true,
                    _ => false,
                };
                if spec.allow_missing && forgiven {
                    self.reference_arguments = None;
                    return self.fail_call_text(spec);
                }
                Err(failure)
            },
            Ok(None) => Err(StepError::new(VmFaultCode::MissingSymbol, gone)),
            Ok(Some(call)) => self.queue_call_text(vm, fiber, spec, call, specs, arguments),
        }
    }
}

} // verus!
