//! The steps that reduce the arguments of a call given as text.

use vstd::prelude::*;
use std::rc::Rc;
use crate::ast::{Expr, Tree};
use crate::existvar::invalid;
use crate::fault::{self, Failure, ScriptFaultKind, StepError, VmFaultCode};
use crate::form_frontend;
use crate::form_reduction;
use crate::form_resources;
use crate::form_support;
use crate::form_terms;
use crate::forms::{
    self, Children, Edge, Form, Pending, PendingReferenceArguments, Prepared,
    PreparedReferenceArguments, Reduction, RestructureTask, RuntimeFormContinuation,
    RuntimeFormTask, Task, TermRef, Visit,
};
use crate::program::ProgramGeneration;
use crate::state::{Vm, VmModel};
use crate::terms::{
    self, Graph, ReferenceTermArgument, ReferenceTermCall, ReferenceTermGraph, ReferenceTermKind,
    Term, MAX_REFERENCE_TERM_NODES,
};
use crate::text;
use crate::value::{SymbolKey, Val, VmValue};

verus! {

/// The steps that visit the roots from `k` on, the first of them on top.
pub open spec fn root_tasks(roots: Seq<Option<Edge>>, k: int, retained: int) -> Seq<Reduction>
    decreases roots.len() - k,
{
    if k >= roots.len() {
        Seq::empty()
    } else {
        let later = root_tasks(roots, k + 1, retained);
        match roots[k] {
            None => later,
            Some(e) => later.push(Reduction::CaptureRoot(k as usize)).push(
                Reduction::Visit(e, k >= retained),
            ),
        }
    }
}

/// A reduction that starts; the roots from `retained` on refuse an index that is out of range.
pub open spec fn started(template: Graph, retained: int) -> Pending {
    let graph = form_terms::fresh(template);
    Pending {
        graph,
        tasks: seq![Reduction::Publish] + root_tasks(graph.roots, 0, retained),
        results: Seq::empty(),
        preparing: true,
    }
}

pub open spec fn term_known(g: Prepared, e: Edge) -> bool {
    match e {
        Edge::Original(id) => id < g.template.nodes.len(),
        Edge::Single(_) => true,
    }
}

pub open spec fn terms_known(g: Prepared, s: Seq<Edge>) -> bool {
    forall|i: int| 0 <= i < s.len() ==> term_known(g, #[trigger] s[i])
}

/// The visited children of a node are children of it.
pub open spec fn visit_known(g: Prepared, c: Visit) -> bool {
    &&& c.node < g.template.nodes.len()
    &&& c.node < g.edges.len()
    &&& c.next <= c.visits.len()
    &&& c.results.len() == c.next
    &&& terms_known(g, c.results)
    &&& forall|i: int|
        0 <= i < c.visits.len() ==> (#[trigger] c.visits[i]).0 < g.edges[c.node as int].len()
}

/// A step of a reduction is about terms of its graph.
pub open spec fn task_known(g: Prepared, t: Reduction) -> bool {
    match t {
        Reduction::Visit(e, _) => term_known(g, e),
        Reduction::CheckFormPredicate(id) => id < g.template.nodes.len(),
        Reduction::DiscardUniqueValue(id) => id < g.template.nodes.len(),
        Reduction::CaptureFold => true,
        Reduction::Publish => true,
        Reduction::CaptureRoot(i) => i < g.roots.len() && g.roots[i as int] is Some,
        Reduction::Children(c) => visit_known(g, c),
        Reduction::CaptureChild(c) => visit_known(g, c) && c.next < c.visits.len(),
    }
}

/// A reduction is in a state that it can be in.
pub open spec fn pending_valid(p: Pending) -> bool {
    &&& terms::well_founded(p.graph.template)
    &&& form_reduction::fits_template(p.graph, p.graph.template)
    &&& p.tasks.len() <= MAX_REFERENCE_TERM_NODES * 4 + 1
    &&& p.results.len() <= p.graph.template.nodes.len()
    &&& p.preparing || (p.tasks.len() == 0 && p.results.len() == 0)
    &&& terms_known(p.graph, p.results)
    &&& forall|i: int| 0 <= i < p.tasks.len() ==> task_known(p.graph, #[trigger] p.tasks[i])
}

/// Every term that a reduction can come to is one of its graph.
pub open spec fn sound(p: Pending) -> bool {
    let g = p.graph;
    &&& g.edges.len() == g.template.nodes.len()
    &&& g.template.nodes.len() <= u32::MAX
    &&& forall|i: int|
        0 <= i < g.edges.len() ==> terms_known(g, #[trigger] g.edges[i]) && g.edges[i].len()
            == terms::children(g.template.nodes[i].term).len()
    &&& terms_known(g, p.results)
    &&& forall|i: int| 0 <= i < p.tasks.len() ==> task_known(g, #[trigger] p.tasks[i])
}

pub open spec fn with_step(p: Pending, t: Reduction) -> Pending {
    Pending { tasks: p.tasks.push(t), ..p }
}

pub open spec fn with_result(p: Pending, e: Edge) -> Pending {
    Pending { results: p.results.push(e), ..p }
}

/// A term is visited: a literal is its own result, the children of another term are visited.
pub open spec fn term_visited(
    program: ProgramGeneration,
    form: Form,
    p: Pending,
    e: Edge,
    reject: bool,
) -> (Form, Pending, Result<(), Failure>) {
    if form.remaining_nodes == 0 {
        (
            form,
            p,
            Err(
                form_resources::resource_failure("reference argument restructuring node limit"@),
            ),
        )
    } else {
        let after = Form { remaining_nodes: (form.remaining_nodes - 1) as usize, ..form };
        match (form_terms::single_of(p.graph, e), e) {
            (None, Edge::Original(node)) => match form_reduction::bad_edge(
                program,
                p.graph,
                node as int,
            ) {
                Err(x) => (after, p, Err(x)),
                Ok(Some(edge)) => if reject {
                    (after, p, Err(form_reduction::index_failure()))
                } else {
                    (
                        after,
                        with_result(
                            Pending {
                                graph: form_reduction::deferred(p.graph, node as int, edge),
                                ..p
                            },
                            e,
                        ),
                        Ok(()),
                    )
                },
                Ok(None) => match form_reduction::visits_of(program, p.graph, node as int) {
                    Err(x) => (after, p, Err(x)),
                    Ok(visits) => (
                        after,
                        with_step(
                            p,
                            Reduction::Children(
                                Visit {
                                    node,
                                    reject_constant_index: reject,
                                    visits,
                                    next: 0,
                                    results: Seq::empty(),
                                },
                            ),
                        ),
                        Ok(()),
                    ),
                },
            },
            _ => (after, with_result(p, e), Ok(())),
        }
    }
}

/// The slot of a service that its own reduction reads.
pub open spec fn read_slot(term: Term) -> Option<int> {
    match term {
        Term::Call(target, arguments) => match target.name() {
            None => None,
            Some(name) => if name == "REPLACE"@ && arguments.len() >= 4 {
                Some(3)
            } else if name == "VARSIZE"@ && arguments.len() >= 2 {
                Some(1)
            } else {
                None
            },
        },
        _ => None,
    }
}

/// The slot that a service's own reduction reads is left out.
pub open spec fn reads_omitted(term: Term) -> bool {
    match read_slot(term) {
        None => false,
        Some(slot) => term->Call_1[slot].node is None,
    }
}

pub open spec fn omitted_failure(term: Term) -> Failure {
    Failure::script(
        ScriptFaultKind::Operation,
        if term->Call_0 is Host {
            VmFaultCode::Host
        } else {
            VmFaultCode::Native
        },
        "reference unique method dereferenced an omitted argument"@,
    )
}

/// The name of the service that a term calls.
pub open spec fn service_of(term: Term) -> Option<Seq<char>> {
    match term {
        Term::Call(target, _) => target.name(),
        _ => None,
    }
}

pub open spec fn tree_option(r: Result<Tree, Failure>) -> Result<Option<Tree>, Failure> {
    match r {
        Ok(t) => Ok(Some(t)),
        Err(e) => Err(e),
    }
}

/// The expression of a term of a graph.
pub open spec fn expression_of(program: ProgramGeneration, g: Prepared, e: Edge) -> Result<
    Option<Tree>,
    Failure,
> {
    tree_option(form_terms::term_tree(program, g, e, g.template.nodes.len()))
}

/// The children of a term were visited: it is computed, or it is its own result.
pub open spec fn children_finished(
    program: ProgramGeneration,
    function: SymbolKey,
    p: Pending,
    c: Visit,
) -> (Pending, Result<Option<Tree>, Failure>) {
    let node = c.node as int;
    let own = Edge::Original(c.node);
    let term = p.graph.template.nodes[node].term;
    let edges = p.graph.edges[node];
    match form_reduction::indices_checked(program, p.graph, node) {
        Err(e) => (p, Err(e)),
        Ok(_) => if reads_omitted(term) {
            (p, Err(omitted_failure(term)))
        } else if service_of(term) == Some("STRFORM"@) {
            if edges.len() == 0 {
                (p, Err(Failure::invalid("STRFORM argument missing"@)))
            } else {
                let literal = if form_terms::single_of(p.graph, edges[0]) is Some {
                    Ok(true)
                } else {
                    form_reduction::is_const(program, p.graph, edges[0])
                };
                match literal {
                    Err(e) => (p, Err(e)),
                    Ok(true) => (
                        with_step(p, Reduction::CheckFormPredicate(c.node)),
                        expression_of(program, p.graph, edges[0]),
                    ),
                    Ok(false) => (with_result(p, own), Ok(None)),
                }
            }
        } else if service_of(term) == Some("REPLACE"@) {
            if edges.len() > 3 {
                (
                    with_step(p, Reduction::DiscardUniqueValue(c.node)),
                    expression_of(program, p.graph, edges[3]),
                )
            } else {
                (with_result(p, own), Ok(None))
            }
        } else {
            match form_reduction::folds(program, function, p.graph, node, c.results) {
                Err(e) => (p, Err(e)),
                Ok(true) => (
                    with_step(p, Reduction::CaptureFold),
                    expression_of(program, p.graph, own),
                ),
                Ok(false) => (with_result(p, own), Ok(None)),
            }
        },
    }
}

/// A source whose plainness decides whether a STRFORM call is computed.
pub struct PredicateAsk {
    pub node: u32,
    pub source: String,
}

/// Mathematical content of a [`PredicateAsk`].
pub struct AskedPredicate {
    pub node: u32,
    pub source: Seq<char>,
}

impl View for PredicateAsk {
    type V = AskedPredicate;

    open spec fn view(&self) -> AskedPredicate {
        AskedPredicate { node: self.node, source: self.source@ }
    }
}

/// The source of a STRFORM call is taken; whether it is plain text is asked next.
pub open spec fn predicate_asked(form: Form, node: u32) -> (Form, Result<AskedPredicate, Failure>) {
    match form_support::popped(form, "STRFORM predicate source missing"@) {
        (after, Err(e)) => (after, Err(e)),
        (after, Ok(Val::Text(source))) => if form_resources::size(source) > after.remaining_bytes {
            (
                after,
                Err(form_resources::resource_failure("STRFORM predicate source limit"@)),
            )
        } else {
            let paid = Form {
                remaining_bytes: (after.remaining_bytes - form_resources::size(source)) as usize,
                ..after
            };
            match form_frontend::preflighted(source) {
                Err(e) => (paid, Err(e)),
                Ok(_) => (paid, Ok(AskedPredicate { node, source })),
            }
        },
        (after, Ok(_)) => (
            after,
            Err(Failure::invalid("STRFORM predicate source is not String"@)),
        ),
    }
}

/// The next step of a reduction is scheduled; before it an expression is evaluated, if there is
/// one.
pub open spec fn pumped(form: Form, evaluate: Option<Tree>) -> Form {
    let next = form.with_task(Task::ReferenceArgumentsPump);
    match evaluate {
        None => next,
        Some(t) => Form {
            reference_bindings: true,
            ..next.with_task(Task::RestoreReferenceBindings(form.reference_bindings))
        }.with_task(Task::Evaluate(t)),
    }
}

/// What a step of a reduction came to.
pub enum Turn {
    /// A step that may evaluate an expression.
    Done(Option<Tree>),
    /// The reduction has ended.
    Published,
    /// It is to be asked whether a source is plain text.
    Ask(AskedPredicate),
}

pub open spec fn plain(r: Result<(), Failure>) -> Result<Turn, Failure> {
    match r {
        Ok(_) => Ok(Turn::Done(None)),
        Err(e) => Err(e),
    }
}

pub open spec fn evaluated(r: Result<Option<Tree>, Failure>) -> Result<Turn, Failure> {
    match r {
        Ok(t) => Ok(Turn::Done(t)),
        Err(e) => Err(e),
    }
}

/// The child that a visit comes to next is visited.
pub open spec fn child_visited(p: Pending, c: Visit) -> Pending {
    with_step(
        with_step(p, Reduction::CaptureChild(c)),
        Reduction::Visit(
            p.graph.edges[c.node as int][c.visits[c.next as int].0 as int],
            c.reject_constant_index,
        ),
    )
}

/// The result of a visited child is taken.
pub open spec fn child_captured(p: Pending, c: Visit) -> (Pending, Result<(), Failure>) {
    if p.results.len() == 0 {
        (p, Err(Failure::invalid("reference argument child result missing"@)))
    } else {
        let e = p.results.last();
        let (edge, keep) = c.visits[c.next as int];
        let graph = if keep {
            Prepared {
                edges: p.graph.edges.update(
                    c.node as int,
                    p.graph.edges[c.node as int].update(edge as int, e),
                ),
                ..p.graph
            }
        } else {
            p.graph
        };
        (
            with_step(
                Pending { graph, results: p.results.drop_last(), ..p },
                Reduction::Children(
                    Visit { results: c.results.push(e), next: (c.next + 1) as usize, ..c },
                ),
            ),
            Ok(()),
        )
    }
}

/// One step of a reduction.
pub open spec fn turned(program: ProgramGeneration, form: Form, p: Pending, t: Reduction) -> (
    Form,
    Pending,
    Result<Turn, Failure>,
) {
    match t {
        Reduction::Visit(e, reject) => {
            let (after, q, r) = term_visited(program, form, p, e, reject);
            (after, q, plain(r))
        },
        Reduction::Children(c) => if c.next < c.visits.len() {
            (form, child_visited(p, c), Ok(Turn::Done(None)))
        } else {
            let (q, r) = children_finished(program, form.function, p, c);
            (form, q, evaluated(r))
        },
        Reduction::CaptureChild(c) => {
            let (q, r) = child_captured(p, c);
            (form, q, plain(r))
        },
        Reduction::CaptureFold => match form_support::popped(
            form,
            "reference argument folded result missing"@,
        ) {
            (after, Err(e)) => (after, p, Err(e)),
            (after, Ok(v)) => match form_reduction::literal_of(v) {
                Err(e) => (after, p, Err(e)),
                Ok(e) => (after, with_result(p, e), Ok(Turn::Done(None))),
            },
        },
        Reduction::DiscardUniqueValue(node) => match form_support::popped_integer(
            form,
            "reference argument REPLACE unique mode is not Integer"@,
        ) {
            (after, Err(e)) => (after, p, Err(e)),
            (after, Ok(_)) => (
                after,
                with_result(p, Edge::Original(node)),
                Ok(Turn::Done(None)),
            ),
        },
        Reduction::CheckFormPredicate(node) => match predicate_asked(form, node) {
            (after, Err(e)) => (after, p, Err(e)),
            (after, Ok(ask)) => (after, p, Ok(Turn::Ask(ask))),
        },
        Reduction::CaptureRoot(index) => if p.results.len() == 0 {
            (form, p, Err(Failure::invalid("reference argument root result missing"@)))
        } else {
            (
                form,
                Pending {
                    graph: Prepared {
                        roots: p.graph.roots.update(index as int, Some(p.results.last())),
                        ..p.graph
                    },
                    results: p.results.drop_last(),
                    ..p
                },
                Ok(Turn::Done(None)),
            )
        },
        Reduction::Publish => if p.results.len() > 0 || p.tasks.len() > 0 {
            (
                form,
                p,
                Err(
                    Failure::invalid(
                        "reference argument publication has unfinished reduction"@,
                    ),
                ),
            )
        } else {
            (form, Pending { preparing: false, ..p }, Ok(Turn::Published))
        },
    }
}

/// One step of the reduction that an evaluation holds, and the steps that follow it. The reduction
/// is taken out of the evaluation while the step is made.
pub open spec fn advanced(vm: VmModel, form: Form) -> (
    Form,
    Result<Option<AskedPredicate>, Failure>,
) {
    match form.pending {
        None => (
            form,
            Err(Failure::invalid("reference argument pending state is missing"@)),
        ),
        Some(p) => if p.tasks.len() == 0 {
            (form, Err(Failure::invalid("reference argument reduction task is missing"@)))
        } else {
            let rest = Pending { tasks: p.tasks.drop_last(), ..p };
            match vm.program(form.generation) {
                None => (
                    Form { pending: Some(rest), ..form },
                    Err(Failure::invalid("reference argument generation is missing"@)),
                ),
                Some(program) => {
                    let (after, q, r) = turned(
                        program,
                        Form { pending: None, ..form },
                        rest,
                        p.tasks.last(),
                    );
                    let held = Form { pending: Some(q), ..after };
                    match r {
                        Err(e) => (held, Err(e)),
                        Ok(Turn::Published) => (held, Ok(None)),
                        Ok(Turn::Ask(ask)) => (held, Ok(Some(ask))),
                        Ok(Turn::Done(t)) => (pumped(held, t), Ok(None)),
                    }
                },
            }
        },
    }
}

/// It is known whether the source of a STRFORM call is plain text: then the call is computed.
pub open spec fn predicate_answered(vm: VmModel, form: Form, node: u32, plain: bool) -> (
    Form,
    Result<(), Failure>,
) {
    match form.pending {
        None => (
            form,
            Err(Failure::invalid("reference argument pending state is missing"@)),
        ),
        Some(p) => match vm.program(form.generation) {
            None => (form, Err(Failure::invalid("reference argument generation is missing"@))),
            Some(program) => if plain {
                let held = Form {
                    pending: Some(with_step(p, Reduction::CaptureFold)),
                    ..form
                };
                match expression_of(program, p.graph, Edge::Original(node)) {
                    Err(e) => (held, Err(e)),
                    Ok(t) => (pumped(held, t), Ok(())),
                }
            } else {
                (
                    pumped(
                        Form { pending: Some(with_result(p, Edge::Original(node))), ..form },
                        None,
                    ),
                    Ok(()),
                )
            },
        },
    }
}

pub open spec fn tree_result(r: Result<Option<Rc<Expr>>, StepError>) -> Result<
    Option<Tree>,
    Failure,
> {
    match r {
        Ok(Some(t)) => Ok(Some(t@)),
        Ok(None) => Ok(None),
        Err(e) => Err(e@),
    }
}

pub open spec fn ask_result(r: Result<Option<PredicateAsk>, StepError>) -> Result<
    Option<AskedPredicate>,
    Failure,
> {
    match r {
        Ok(Some(a)) => Ok(Some(a@)),
        Ok(None) => Ok(None),
        Err(e) => Err(e@),
    }
}

impl PendingReferenceArguments {
    fn push_step(&mut self, t: RestructureTask)
        ensures
            final(self)@ == with_step(old(self)@, t@),
    {
        self.tasks.push(t);
        assert(forms::reductions(self.tasks@) =~= forms::reductions(old(self).tasks@).push(t@));
    }

    fn push_result(&mut self, e: TermRef)
        ensures
            final(self)@ == with_result(old(self)@, e@),
    {
        self.results.push(e);
        assert(forms::edges(self.results@) =~= forms::edges(old(self).results@).push(e@));
    }

    fn pop_result(&mut self, message: &str) -> (r: Result<TermRef, StepError>)
        ensures
            old(self)@.results.len() == 0 ==> final(self)@ == old(self)@ && r is Err
                && r->Err_0@ == Failure::invalid(message@),
            old(self)@.results.len() > 0 ==> r is Ok && r->Ok_0@ == old(self)@.results.last()
                && final(self)@ == (Pending {
                results: old(self)@.results.drop_last(),
                ..old(self)@
            }),
    {
        let ghost before = self@.results;
        assert(before.len() == self.results@.len());
        match self.results.pop() {
            None => Err(invalid(message)),
            Some(e) => {
                assert(before.last() == e@);
                assert(forms::edges(self.results@) =~= before.drop_last());
                Ok(e)
            },
        }
    }

    /// A reduction that starts; the roots from `retained_roots` on refuse an index that is out of
    /// range.
    pub fn new(template: ReferenceTermGraph, retained_roots: usize) -> (r: PendingReferenceArguments)
        ensures
            r@ == started(template@, retained_roots as int),
    {
        let graph = PreparedReferenceArguments::new(template);
        let ghost roots = graph@.roots;
        let ghost retained = retained_roots as int;
        let mut out = PendingReferenceArguments {
            graph,
            tasks: Vec::new(),
            results: Vec::new(),
            preparing: true,
        };
        out.push_step(RestructureTask::Publish);
        assert(roots.len() == out.graph.roots@.len());
        let mut k: usize = out.graph.roots.len();
        let ghost first: Seq<Reduction> = seq![Reduction::Publish];
        assert(out@.tasks =~= first + root_tasks(roots, k as int, retained));
        assert(out@.results =~= Seq::<Edge>::empty());
        while k > 0
            invariant
                k <= roots.len(),
                roots == out@.graph.roots,
                retained == retained_roots,
                out@.graph == form_terms::fresh(template@),
                out@.results == Seq::<Edge>::empty(),
                out@.preparing,
                out@.tasks == first + root_tasks(roots, k as int, retained),
            decreases k,
        {
            k = k - 1;
            assert(roots[k as int] == forms::optional_edge(out.graph.roots@[k as int]));
            let root = match &out.graph.roots[k] {
                Some(e) => Some(e.clone()),
                None => None,
            };
            match root {
                Some(e) => {
                    out.push_step(RestructureTask::CaptureRoot(k));
                    out.push_step(
                        RestructureTask::Visit {
                            term: e,
                            reject_constant_index: k >= retained_roots,
                        },
                    );
                },
                None => {},
            }
            assert(out@.tasks =~= first + root_tasks(roots, k as int, retained));
        }
        out
    }

    fn valid_term(&self, term: &TermRef) -> (r: bool)
        ensures
            r == term_known(self@.graph, term@),
    {
        assert(self@.graph.template.nodes.len() == self.graph.template.nodes@.len());
        match term {
            TermRef::Original(id) => (*id as usize) < self.graph.template.nodes.len(),
            TermRef::Single(_) => true,
        }
    }

    fn valid_terms(&self, list: &Vec<TermRef>) -> (r: bool)
        ensures
            r == terms_known(self@.graph, forms::edges(list@)),
    {
        let ghost all = forms::edges(list@);
        let mut i: usize = 0;
        while i < list.len()
            invariant
                i <= list.len(),
                all == forms::edges(list@),
                forall|j: int| 0 <= j < i ==> term_known(self@.graph, #[trigger] all[j]),
            decreases list.len() - i,
        {
            assert(all[i as int] == list@[i as int]@);
            if !self.valid_term(&list[i]) {
                return false;
            }
            i = i + 1;
        }
        true
    }

    fn valid_visit(&self, c: &Children) -> (r: bool)
        ensures
            r == visit_known(self@.graph, c@),
    {
        assert(self@.graph.template.nodes.len() == self.graph.template.nodes@.len());
        assert(self@.graph.edges.len() == self.graph.edges@.len());
        assert(c@.results.len() == c.results@.len());
        let at: usize = c.node as usize;
        if at >= self.graph.template.nodes.len() || at >= self.graph.edges.len() || c.next
            > c.visits.len() || c.results.len() != c.next || !self.valid_terms(&c.results) {
            return false;
        }
        assert(self@.graph.edges[at as int] == forms::edges(self.graph.edges@[at as int]@));
        let count: usize = self.graph.edges[at].len();
        let mut i: usize = 0;
        while i < c.visits.len()
            invariant
                i <= c.visits.len(),
                at == c.node,
                count == self@.graph.edges[at as int].len(),
                forall|j: int| 0 <= j < i ==> (#[trigger] c.visits@[j]).0 < count,
            decreases c.visits.len() - i,
        {
            if c.visits[i].0 >= count {
                assert(c@.visits[i as int].0 >= count);
                return false;
            }
            i = i + 1;
        }
        true
    }

    fn valid_task(&self, task: &RestructureTask) -> (r: bool)
        ensures
            r == task_known(self@.graph, task@),
    {
        assert(self@.graph.template.nodes.len() == self.graph.template.nodes@.len());
        let count: usize = self.graph.template.nodes.len();
        match task {
            RestructureTask::Visit { term, .. } => self.valid_term(term),
            RestructureTask::CheckFormPredicate(id) => (*id as usize) < count,
            RestructureTask::DiscardUniqueValue(id) => (*id as usize) < count,
            RestructureTask::CaptureFold => true,
            RestructureTask::Publish => true,
            RestructureTask::CaptureRoot(index) => {
                assert(self@.graph.roots.len() == self.graph.roots@.len());
                if *index >= self.graph.roots.len() {
                    return false;
                }
                assert(self@.graph.roots[*index as int] == forms::optional_edge(
                    self.graph.roots@[*index as int],
                ));
                self.graph.roots[*index].is_some()
            },
            RestructureTask::Children(c) => self.valid_visit(c),
            RestructureTask::CaptureChild(c) => self.valid_visit(c) && c.next < c.visits.len(),
        }
    }

    /// Tells whether this reduction is in a state that it can be in.
    pub fn valid(&self) -> (r: bool)
        ensures
            r == pending_valid(self@),
    {
        assert(self@.tasks.len() == self.tasks@.len());
        assert(self@.results.len() == self.results@.len());
        assert(self@.graph.template.nodes.len() == self.graph.template.nodes@.len());
        if !self.graph.template.validate_structure() || !self.graph.valid_for_template(
            &self.graph.template,
        ) || self.tasks.len() > MAX_REFERENCE_TERM_NODES * 4 + 1 || self.results.len()
            > self.graph.template.nodes.len() || !(self.preparing || (self.tasks.len() == 0
            && self.results.len() == 0)) || !self.valid_terms(&self.results) {
            return false;
        }
        let mut i: usize = 0;
        while i < self.tasks.len()
            invariant
                i <= self.tasks.len(),
                self@.tasks.len() == self.tasks@.len(),
                forall|j: int|
                    0 <= j < i ==> task_known(self@.graph, #[trigger] self@.tasks[j]),
            decreases self.tasks.len() - i,
        {
            assert(self@.tasks[i as int] == self.tasks@[i as int]@);
            if !self.valid_task(&self.tasks[i]) {
                return false;
            }
            i = i + 1;
        }
        true
    }

    fn finish_reference_children(
        &mut self,
        program: &ProgramGeneration,
        function: SymbolKey,
        c: &Children,
    ) -> (r: Result<Option<Rc<Expr>>, StepError>)
        requires
            c@.node < old(self)@.graph.template.nodes.len(),
            c@.node < old(self)@.graph.edges.len(),
        ensures
            (final(self)@, tree_result(r)) == children_finished(
                *program,
                function,
                old(self)@,
                c@,
            ),
    {
        match self.graph.check_constant_indices(program, c.node) {
            Err(e) => {
                return Err(e);
            },
            Ok(_) => {},
        }
        let at: usize = c.node as usize;
        let ghost g = self@.graph;
        assert(g.template.nodes[at as int] == self.graph.template.nodes@[at as int]@);
        assert(g.edges[at as int] == forms::edges(self.graph.edges@[at as int]@));
        let mut strform = false;
        let mut replace = false;
        match &self.graph.template.nodes[at].kind {
            ReferenceTermKind::Call { target, arguments } => match target.name() {
                None => {},
                Some(name) => {
                    strform = text::same_text(name, "STRFORM");
                    replace = text::same_text(name, "REPLACE");
                    let omitted = if replace && arguments.len() >= 4 {
                        arguments[3].node.is_none()
                    } else if text::same_text(name, "VARSIZE") && arguments.len() >= 2 {
                        arguments[1].node.is_none()
                    } else {
                        false
                    };
                    if omitted {
                        let code = match target {
                            ReferenceTermCall::Host { .. } => VmFaultCode::Host,
                            _ => VmFaultCode::Native,
                        };
                        return Err(
                            StepError::script(
                                ScriptFaultKind::Operation,
                                code,
                                "reference unique method dereferenced an omitted argument",
                            ),
                        );
                    }
                },
            },
            _ => {},
        }
        let own = TermRef::Original(c.node);
        if strform {
            if self.graph.edges[at].len() == 0 {
                return Err(invalid("STRFORM argument missing"));
            }
            assert(g.edges[at as int][0] == self.graph.edges@[at as int]@[0]@);
            let literal = if self.graph.single(&self.graph.edges[at][0]).is_some() {
                true
            } else {
                match self.graph.variable_const(program, &self.graph.edges[at][0]) {
                    Err(e) => {
                        return Err(e);
                    },
                    Ok(b) => b,
                }
            };
            if !literal {
                self.push_result(own);
                return Ok(None);
            }
            self.push_step(RestructureTask::CheckFormPredicate(c.node));
            return match self.graph.expression(program, &self.graph.edges[at][0]) {
                Err(e) => Err(e),
                Ok(t) => Ok(Some(t)),
            };
        }
        if replace {
            if self.graph.edges[at].len() <= 3 {
                self.push_result(own);
                return Ok(None);
            }
            assert(g.edges[at as int][3] == self.graph.edges@[at as int]@[3]@);
            self.push_step(RestructureTask::DiscardUniqueValue(c.node));
            return match self.graph.expression(program, &self.graph.edges[at][3]) {
                Err(e) => Err(e),
                Ok(t) => Ok(Some(t)),
            };
        }
        match self.graph.may_fold(program, function, c.node, &c.results) {
            Err(e) => Err(e),
            Ok(false) => {
                self.push_result(own);
                Ok(None)
            },
            Ok(true) => {
                self.push_step(RestructureTask::CaptureFold);
                match self.graph.expression(program, &own) {
                    Err(e) => Err(e),
                    Ok(t) => Ok(Some(t)),
                }
            },
        }
    }
}

/// What a step of a reduction came to.
enum TurnValue {
    Done(Option<Rc<Expr>>),
    Published,
    Ask(PredicateAsk),
}

spec fn turn_view(t: TurnValue) -> Turn {
    match t {
        TurnValue::Done(Some(e)) => Turn::Done(Some(e@)),
        TurnValue::Done(None) => Turn::Done(None),
        TurnValue::Published => Turn::Published,
        TurnValue::Ask(a) => Turn::Ask(a@),
    }
}

spec fn turn_result(r: Result<TurnValue, StepError>) -> Result<Turn, Failure> {
    match r {
        Ok(t) => Ok(turn_view(t)),
        Err(e) => Err(e@),
    }
}

impl RuntimeFormContinuation {
    fn visit_reference_term(
        &mut self,
        program: &ProgramGeneration,
        pending: &mut PendingReferenceArguments,
        term: TermRef,
        reject_constant_index: bool,
    ) -> (r: Result<(), StepError>)
        requires
            term_known(old(pending)@.graph, term@),
            old(pending)@.graph.edges.len() == old(pending)@.graph.template.nodes.len(),
        ensures
            (final(self)@, final(pending)@, form_resources::unit_result(r)) == term_visited(
                *program,
                old(self)@,
                old(pending)@,
                term@,
                reject_constant_index,
            ),
    {
        if self.remaining_nodes == 0 {
            return Err(
                form_resources::resource_limit("reference argument restructuring node limit"),
            );
        }
        self.remaining_nodes = self.remaining_nodes - 1;
        if pending.graph.single(&term).is_some() {
            pending.push_result(term);
            return Ok(());
        }
        let node: u32 = match term {
            TermRef::Single(_) => {
                return Err(invalid("reference argument nonliteral replacement"));
            },
            TermRef::Original(id) => id,
        };
        match pending.graph.constant_index_out_of_range(program, node) {
            Err(e) => {
                return Err(e);
            },
            Ok(false) => {},
            Ok(true) => {
                if reject_constant_index {
                    match pending.graph.check_constant_indices(program, node) {
                        Err(e) => {
                            return Err(e);
                        },
                        Ok(_) => {},
                    }
                }
                match pending.graph.defer_constant_index_failure(program, node) {
                    Err(e) => {
                        return Err(e);
                    },
                    Ok(_) => {},
                }
                pending.push_result(TermRef::Original(node));
                return Ok(());
            },
        }
        let visits = match pending.graph.child_plan(program, node) {
            Err(e) => {
                return Err(e);
            },
            Ok(v) => v,
        };
        let results: Vec<TermRef> = Vec::new();
        assert(forms::edges(results@) =~= Seq::<Edge>::empty());
        pending.push_step(
            RestructureTask::Children(
                Children { node, reject_constant_index, visits, next: 0, results },
            ),
        );
        Ok(())
    }

    fn take_predicate_source(&mut self, node: u32) -> (r: Result<PredicateAsk, StepError>)
        ensures
            (final(self)@, fault::outcome(r)) == predicate_asked(old(self)@, node),
    {
        let source = match self.pop_value("STRFORM predicate source missing") {
            Err(e) => {
                return Err(e);
            },
            Ok(VmValue::String(s)) => s,
            Ok(_) => {
                return Err(invalid("STRFORM predicate source is not String"));
            },
        };
        let bytes: usize = form_resources::byte_count(source.as_str());
        if bytes > self.remaining_source_bytes {
            return Err(form_resources::resource_limit("STRFORM predicate source limit"));
        }
        self.remaining_source_bytes = self.remaining_source_bytes - bytes;
        match form_frontend::preflight_nesting(source.as_str()) {
            Err(e) => Err(e),
            Ok(_) => Ok(PredicateAsk { node, source }),
        }
    }

    fn push_pump(&mut self, evaluate: Option<Rc<Expr>>)
        ensures
            final(self)@ == pumped(
                old(self)@,
                match evaluate {
                    Some(e) => Some(e@),
                    None => None,
                },
            ),
    {
        let before = self.reference_bindings;
        self.push_task(RuntimeFormTask::ReferenceArgumentsPump);
        match evaluate {
            None => {},
            Some(e) => {
                self.push_task(RuntimeFormTask::RestoreReferenceBindings(before));
                self.reference_bindings = true;
                self.push_task(RuntimeFormTask::Evaluate(e));
            },
        }
    }

    fn turn(
        &mut self,
        program: &ProgramGeneration,
        pending: &mut PendingReferenceArguments,
        task: RestructureTask,
    ) -> (r: Result<TurnValue, StepError>)
        requires
            task_known(old(pending)@.graph, task@),
            old(pending)@.graph.edges.len() == old(pending)@.graph.template.nodes.len(),
        ensures
            (final(self)@, final(pending)@, turn_result(r)) == turned(
                *program,
                old(self)@,
                old(pending)@,
                task@,
            ),
    {
        match task {
            RestructureTask::Visit { term, reject_constant_index } => {
                match self.visit_reference_term(program, pending, term, reject_constant_index) {
                    Err(e) => Err(e),
                    Ok(_) => Ok(TurnValue::Done(None)),
                }
            },
            RestructureTask::Children(children) => {
                if children.next < children.visits.len() {
                    let at: usize = children.node as usize;
                    let edge: usize = children.visits[children.next].0;
                    assert(pending@.graph.edges[at as int] == forms::edges(
                        pending.graph.edges@[at as int]@,
                    ));
                    let term = pending.graph.edges[at][edge].clone();
                    let reject_constant_index = children.reject_constant_index;
                    assert(term@ == pending@.graph.edges[at as int][edge as int]);
                    pending.push_step(RestructureTask::CaptureChild(children));
                    pending.push_step(RestructureTask::Visit { term, reject_constant_index });
                    Ok(TurnValue::Done(None))
                } else {
                    match pending.finish_reference_children(program, self.function, &children) {
                        Err(e) => Err(e),
                        Ok(t) => Ok(TurnValue::Done(t)),
                    }
                }
            },
            RestructureTask::CaptureChild(children) => {
                match capture_child(pending, children) {
                    Err(e) => Err(e),
                    Ok(_) => Ok(TurnValue::Done(None)),
                }
            },
            RestructureTask::CaptureFold => {
                let v = match self.pop_value("reference argument folded result missing") {
                    Err(e) => {
                        return Err(e);
                    },
                    Ok(v) => v,
                };
                match PreparedReferenceArguments::from_value(v) {
                    Err(e) => Err(e),
                    Ok(t) => {
                        pending.push_result(t);
                        Ok(TurnValue::Done(None))
                    },
                }
            },
            RestructureTask::DiscardUniqueValue(node) => {
                match self.pop_integer("reference argument REPLACE unique mode is not Integer") {
                    Err(e) => Err(e),
                    Ok(_) => {
                        pending.push_result(TermRef::Original(node));
                        Ok(TurnValue::Done(None))
                    },
                }
            },
            RestructureTask::CheckFormPredicate(node) => {
                match self.take_predicate_source(node) {
                    Err(e) => Err(e),
                    Ok(ask) => Ok(TurnValue::Ask(ask)),
                }
            },
            RestructureTask::CaptureRoot(index) => {
                match pending.pop_result("reference argument root result missing") {
                    Err(e) => Err(e),
                    Ok(t) => {
                        let ghost roots = pending@.graph.roots;
                        pending.graph.roots.set(index, Some(t));
                        assert(forms::optional_edges(pending.graph.roots@) =~= roots.update(
                            index as int,
                            Some(t@),
                        ));
                        Ok(TurnValue::Done(None))
                    },
                }
            },
            RestructureTask::Publish => {
                assert(pending@.results.len() == pending.results@.len());
                assert(pending@.tasks.len() == pending.tasks@.len());
                if pending.results.len() > 0 || pending.tasks.len() > 0 {
                    return Err(
                        invalid("reference argument publication has unfinished reduction"),
                    );
                }
                pending.preparing = false;
                Ok(TurnValue::Published)
            },
        }
    }

    /// Makes one step of the reduction, and schedules what follows it. Gives a source where it is to
    /// be asked whether that is plain text.
    pub fn advance_reference_arguments(&mut self, vm: &Vm) -> (r: Result<
        Option<PredicateAsk>,
        StepError,
    >)
        requires
            old(self)@.pending matches Some(p) ==> sound(p),
        ensures
            (final(self)@, ask_result(r)) == advanced(vm@, old(self)@),
    {
        let mut pending = match self.reference_arguments.take() {
            None => {
                return Err(invalid("reference argument pending state is missing"));
            },
            Some(p) => p,
        };
        let ghost p = pending@;
        assert(p.tasks.len() == pending.tasks@.len());
        let task = match pending.tasks.pop() {
            None => {
                self.reference_arguments = Some(pending);
                return Err(invalid("reference argument reduction task is missing"));
            },
            Some(t) => t,
        };
        proof {
            assert(p.tasks.last() == task@);
            assert(forms::reductions(pending.tasks@) =~= p.tasks.drop_last());
        }
        let program = match vm.program(self.generation) {
            None => {
                self.reference_arguments = Some(pending);
                return Err(invalid("reference argument generation is missing"));
            },
            Some(program) => program,
        };
        let result = self.turn(&program, &mut pending, task);
        self.reference_arguments = Some(pending);
        match result {
            Err(e) => Err(e),
            Ok(TurnValue::Published) => Ok(None),
            Ok(TurnValue::Ask(ask)) => Ok(Some(ask)),
            Ok(TurnValue::Done(t)) => {
                self.push_pump(t);
                Ok(None)
            },
        }
    }

    /// Goes on when it is known whether the source of a STRFORM call is plain text.
    pub fn finish_reference_form_predicate(&mut self, vm: &Vm, node: u32, plain: bool) -> (r: Result<
        (),
        StepError,
    >)
        ensures
            (final(self)@, form_resources::unit_result(r)) == predicate_answered(
                vm@,
                old(self)@,
                node,
                plain,
            ),
    {
        let mut pending = match self.reference_arguments.take() {
            None => {
                return Err(invalid("reference argument pending state is missing"));
            },
            Some(p) => p,
        };
        let program = match vm.program(self.generation) {
            None => {
                self.reference_arguments = Some(pending);
                return Err(invalid("reference argument generation is missing"));
            },
            Some(program) => program,
        };
        let own = TermRef::Original(node);
        if !plain {
            pending.push_result(own);
            self.reference_arguments = Some(pending);
            self.push_pump(None);
            return Ok(());
        }
        let found = pending.graph.expression(&program, &own);
        pending.push_step(RestructureTask::CaptureFold);
        self.reference_arguments = Some(pending);
        match found {
            Err(e) => Err(e),
            Ok(t) => {
                self.push_pump(Some(t));
                Ok(())
            },
        }
    }
}

fn capture_child(pending: &mut PendingReferenceArguments, c: Children) -> (r: Result<(), StepError>)
    requires
        visit_known(old(pending)@.graph, c@),
        c@.next < c@.visits.len(),
    ensures
        (final(pending)@, form_resources::unit_result(r)) == child_captured(old(pending)@, c@),
{
    let mut children = c;
    let ghost before = children@;
    let ghost start = pending@;
    let term = match pending.pop_result("reference argument child result missing") {
        Err(e) => {
            return Err(e);
        },
        Ok(t) => t,
    };
    let (edge, keep) = children.visits[children.next];
    let at: usize = children.node as usize;
    if keep {
        let ghost lists = pending@.graph.edges;
        let ghost raw = pending.graph.edges@;
        let mut list: Vec<TermRef> = Vec::new();
        let mut i: usize = 0;
        assert(lists[at as int] == forms::edges(raw[at as int]@));
        while i < pending.graph.edges[at].len()
            invariant
                at < pending.graph.edges@.len(),
                pending.graph.edges@ == raw,
                lists == pending@.graph.edges,
                lists[at as int] == forms::edges(raw[at as int]@),
                i <= raw[at as int]@.len(),
                list@.len() == i,
                edge < lists[at as int].len(),
                forall|j: int|
                    0 <= j < i ==> (#[trigger] list@[j])@ == lists[at as int].update(
                        edge as int,
                        term@,
                    )[j],
            decreases raw[at as int]@.len() - i,
        {
            assert(lists[at as int][i as int] == raw[at as int]@[i as int]@);
            if i == edge {
                list.push(term.clone());
            } else {
                list.push(pending.graph.edges[at][i].clone());
            }
            i = i + 1;
        }
        assert(forms::edges(list@) =~= lists[at as int].update(edge as int, term@));
        pending.graph.edges.set(at, list);
        assert(forms::edge_lists(pending.graph.edges@) =~= lists.update(
            at as int,
            lists[at as int].update(edge as int, term@),
        ));
    }
    children.results.push(term);
    assert(forms::edges(children.results@) =~= before.results.push(term@));
    let count: usize = children.visits.len();
    assert(children.next < count);
    children.next = children.next + 1;
    pending.push_step(RestructureTask::Children(children));
    Ok(())
}

proof fn lemma_slot_visits(
    program: ProgramGeneration,
    rule: form_reduction::ChildRule,
    arguments: Seq<ReferenceTermArgument>,
)
    requires
        arguments.len() <= usize::MAX,
    ensures
        forall|i: int|
            0 <= i < form_reduction::slot_visits(program, rule, arguments).len() ==> (
            #[trigger] form_reduction::slot_visits(program, rule, arguments)[i]).0
                < terms::argument_nodes(arguments).len(),
        terms::argument_nodes(arguments).len() <= arguments.len(),
    decreases arguments.len(),
{
    if arguments.len() > 0 {
        lemma_slot_visits(program, rule, arguments.drop_last());
        let before = form_reduction::slot_visits(program, rule, arguments.drop_last());
        let all = form_reduction::slot_visits(program, rule, arguments);
        let count = terms::argument_nodes(arguments.drop_last()).len();
        assert forall|i: int| 0 <= i < all.len() implies (#[trigger] all[i]).0
            < terms::argument_nodes(arguments).len() by {
            if i < before.len() {
                assert(all[i] == before[i]);
            } else {
                assert(all[i].0 == count);
            }
        }
    }
}

/// The visits of a node of a sound reduction are of its children.
proof fn lemma_visits_known(program: ProgramGeneration, p: Pending, node: int)
    requires
        sound(p),
        0 <= node < p.graph.template.nodes.len(),
        p.graph.edges[node].len() <= usize::MAX,
        (p.graph.template.nodes[node].term matches Term::Call(_, arguments) ==> arguments.len()
            <= usize::MAX),
    ensures
        form_reduction::visits_of(program, p.graph, node) matches Ok(visits) ==> forall|i: int|
            0 <= i < visits.len() ==> (#[trigger] visits[i]).0 < p.graph.edges[node].len(),
{
    assert(terms_known(p.graph, p.graph.edges[node]));
    match p.graph.template.nodes[node].term {
        Term::Call(target, arguments) => {
            lemma_slot_visits(program, form_reduction::rule_of(target), arguments);
        },
        _ => {},
    }
}

/// A change of the graph that keeps its shape keeps the soundness of a reduction.
proof fn lemma_same_shape(p: Pending, q: Pending)
    requires
        sound(p),
        q.graph.template == p.graph.template,
        q.tasks == p.tasks,
        terms_known(p.graph, q.results),
        q.graph.edges.len() == p.graph.edges.len(),
        forall|i: int|
            0 <= i < p.graph.edges.len() ==> terms_known(p.graph, #[trigger] q.graph.edges[i])
                && q.graph.edges[i].len() == p.graph.edges[i].len(),
        q.graph.roots.len() == p.graph.roots.len(),
        forall|i: int|
            0 <= i < p.graph.roots.len() && p.graph.roots[i] is Some ==> (
            #[trigger] q.graph.roots[i]) is Some,
    ensures
        sound(q),
{
    let g = p.graph;
    let h = q.graph;
    assert forall|s: Seq<Edge>| #[trigger] terms_known(g, s) implies terms_known(h, s) by {
        assert forall|i: int| 0 <= i < s.len() implies term_known(h, #[trigger] s[i]) by {
            assert(term_known(g, s[i]));
        }
    }
    assert forall|i: int| 0 <= i < h.edges.len() implies terms_known(h, #[trigger] h.edges[i])
        && h.edges[i].len() == terms::children(h.template.nodes[i].term).len() by {
        assert(terms_known(g, g.edges[i]));
    }
    assert forall|i: int| 0 <= i < q.tasks.len() implies task_known(h, #[trigger] q.tasks[i]) by {
        assert(task_known(g, p.tasks[i]));
    }
}

proof fn lemma_step_sound(p: Pending, t: Reduction)
    requires
        sound(p),
        task_known(p.graph, t),
    ensures
        sound(with_step(p, t)),
{
    let q = with_step(p, t);
    assert forall|i: int| 0 <= i < q.tasks.len() implies task_known(
        q.graph,
        #[trigger] q.tasks[i],
    ) by {
        if i < p.tasks.len() {
            assert(q.tasks[i] == p.tasks[i]);
        }
    }
}

proof fn lemma_result_sound(p: Pending, e: Edge)
    requires
        sound(p),
        term_known(p.graph, e),
    ensures
        sound(with_result(p, e)),
{
    let q = with_result(p, e);
    assert forall|i: int| 0 <= i < q.results.len() implies term_known(
        q.graph,
        #[trigger] q.results[i],
    ) by {
        if i < p.results.len() {
            assert(q.results[i] == p.results[i]);
        }
    }
}

proof fn lemma_root_tasks(g: Prepared, k: int, retained: int)
    requires
        0 <= k <= g.roots.len(),
        g.roots.len() <= usize::MAX,
        forall|i: int|
            0 <= i < g.roots.len() ==> (#[trigger] g.roots[i] matches Some(e) ==> term_known(g, e)),
    ensures
        forall|i: int|
            0 <= i < root_tasks(g.roots, k, retained).len() ==> task_known(
                g,
                #[trigger] root_tasks(g.roots, k, retained)[i],
            ),
    decreases g.roots.len() - k,
{
    if k < g.roots.len() {
        lemma_root_tasks(g, k + 1, retained);
        let later = root_tasks(g.roots, k + 1, retained);
        let all = root_tasks(g.roots, k, retained);
        assert forall|i: int| 0 <= i < all.len() implies task_known(g, #[trigger] all[i]) by {
            if i < later.len() {
                assert(all[i] == later[i]);
            }
        }
    }
}

/// A reduction that starts on a graph whose children come first only comes to terms of that graph.
pub proof fn law_new_reduction_is_sound(template: Graph, retained: int)
    requires
        terms::well_founded(template),
        template.roots.len() <= usize::MAX,
    ensures
        sound(started(template, retained)),
{
    let p = started(template, retained);
    let g = p.graph;
    assert forall|i: int| 0 <= i < g.edges.len() implies terms_known(g, #[trigger] g.edges[i])
        && g.edges[i].len() == terms::children(template.nodes[i].term).len() by {
        let children = terms::children(template.nodes[i].term);
        assert forall|k: int| 0 <= k < g.edges[i].len() implies term_known(
            g,
            #[trigger] g.edges[i][k],
        ) by {
            assert(g.edges[i][k] == Edge::Original(children[k]));
            assert(children[k] < i);
        }
    }
    assert forall|i: int| 0 <= i < g.roots.len() implies (#[trigger] g.roots[i] matches Some(e)
        ==> term_known(g, e)) by {
        assert(template.roots[i] matches Some(r) ==> r < template.nodes.len());
    }
    lemma_root_tasks(g, 0, retained);
    let later = root_tasks(g.roots, 0, retained);
    assert forall|i: int| 0 <= i < p.tasks.len() implies task_known(g, #[trigger] p.tasks[i]) by {
        if i > 0 {
            assert(p.tasks[i] == later[i - 1]);
        }
    }
}

/// A reduction in a state that it can be in only comes to terms of its graph.
pub proof fn law_valid_reduction_is_sound(p: Pending)
    requires
        pending_valid(p),
    ensures
        sound(p),
{
    let g = p.graph;
    assert forall|i: int| 0 <= i < g.edges.len() implies terms_known(g, #[trigger] g.edges[i])
        && g.edges[i].len() == terms::children(g.template.nodes[i].term).len() by {
        assert(form_reduction::children_replaced(g, i));
        let children = terms::children(g.template.nodes[i].term);
        assert forall|k: int| 0 <= k < g.edges[i].len() implies term_known(
            g,
            #[trigger] g.edges[i][k],
        ) by {
            assert(form_reduction::replaces(g.template, children[k], g.edges[i][k]));
            assert(children[k] < i);
        }
    }
}

proof fn lemma_visited_sound(
    program: ProgramGeneration,
    form: Form,
    p: Pending,
    e: Edge,
    reject: bool,
)
    requires
        sound(p),
        term_known(p.graph, e),
        lists_fit(p.graph),
    ensures
        sound(term_visited(program, form, p, e, reject).1),
{
    if form.remaining_nodes > 0 {
        match (form_terms::single_of(p.graph, e), e) {
            (None, Edge::Original(node)) => {
                match form_reduction::bad_edge(program, p.graph, node as int) {
                    Err(_) => {},
                    Ok(Some(edge)) => {
                        let q = Pending {
                            graph: form_reduction::deferred(p.graph, node as int, edge),
                            ..p
                        };
                        assert forall|i: int| 0 <= i < p.graph.edges.len() implies terms_known(
                            p.graph,
                            #[trigger] q.graph.edges[i],
                        ) && q.graph.edges[i].len() == p.graph.edges[i].len() by {
                            assert(terms_known(p.graph, p.graph.edges[i]));
                            if i == node {
                                let list = form_reduction::zeroed(p.graph.edges[i], edge);
                                assert forall|k: int| 0 <= k < list.len() implies term_known(
                                    p.graph,
                                    #[trigger] list[k],
                                ) by {
                                    assert(term_known(p.graph, p.graph.edges[i][k]));
                                }
                            }
                        }
                        lemma_same_shape(p, q);
                        lemma_result_sound(q, e);
                    },
                    Ok(None) => {
                        lemma_visits_known(program, p, node as int);
                        match form_reduction::visits_of(program, p.graph, node as int) {
                            Err(_) => {},
                            Ok(visits) => {
                                lemma_step_sound(
                                    p,
                                    Reduction::Children(
                                        Visit {
                                            node,
                                            reject_constant_index: reject,
                                            visits,
                                            next: 0,
                                            results: Seq::empty(),
                                        },
                                    ),
                                );
                            },
                        }
                    },
                }
            },
            _ => {
                lemma_result_sound(p, e);
            },
        }
    }
}

proof fn lemma_captured_sound(p: Pending, c: Visit)
    requires
        sound(p),
        visit_known(p.graph, c),
        c.next < c.visits.len() <= usize::MAX,
    ensures
        sound(child_captured(p, c).0),
{
    if p.results.len() > 0 {
        let e = p.results.last();
        let (edge, keep) = c.visits[c.next as int];
        assert(term_known(p.graph, e));
        let q = Pending {
            graph: if keep {
                Prepared {
                    edges: p.graph.edges.update(
                        c.node as int,
                        p.graph.edges[c.node as int].update(edge as int, e),
                    ),
                    ..p.graph
                }
            } else {
                p.graph
            },
            results: p.results.drop_last(),
            ..p
        };
        assert forall|i: int| 0 <= i < p.graph.edges.len() implies terms_known(
            p.graph,
            #[trigger] q.graph.edges[i],
        ) && q.graph.edges[i].len() == p.graph.edges[i].len() by {
            assert(terms_known(p.graph, p.graph.edges[i]));
        }
        assert forall|i: int| 0 <= i < q.results.len() implies term_known(
            p.graph,
            #[trigger] q.results[i],
        ) by {
            assert(q.results[i] == p.results[i]);
        }
        lemma_same_shape(p, q);
        let next = Visit { results: c.results.push(e), next: (c.next + 1) as usize, ..c };
        assert forall|i: int| 0 <= i < next.results.len() implies term_known(
            q.graph,
            #[trigger] next.results[i],
        ) by {
            if i < c.results.len() {
                assert(term_known(p.graph, c.results[i]));
            }
        }
        lemma_step_sound(q, Reduction::Children(next));
    }
}

/// The lists of a graph have lengths of the machine.
pub open spec fn lists_fit(g: Prepared) -> bool {
    &&& forall|i: int|
        0 <= i < g.edges.len() ==> (#[trigger] g.edges[i]).len() <= usize::MAX
    &&& forall|i: int|
        0 <= i < g.template.nodes.len() ==> ((#[trigger] g.template.nodes[i]).term matches Term::Call(
            _,
            arguments,
        ) ==> arguments.len() <= usize::MAX)
}

/// Every step of a reduction, whatever it evaluates, leaves a reduction that only comes to terms of
/// its graph.
pub proof fn law_reduction_stays_sound(
    program: ProgramGeneration,
    form: Form,
    p: Pending,
    t: Reduction,
)
    requires
        sound(p),
        task_known(p.graph, t),
        lists_fit(p.graph),
        (t matches Reduction::CaptureChild(c) ==> c.visits.len() <= usize::MAX),
    ensures
        sound(turned(program, form, p, t).1),
{
    match t {
        Reduction::Visit(e, reject) => {
            lemma_visited_sound(program, form, p, e, reject);
        },
        Reduction::Children(c) => {
            if c.next < c.visits.len() {
                let e = p.graph.edges[c.node as int][c.visits[c.next as int].0 as int];
                assert(terms_known(p.graph, p.graph.edges[c.node as int]));
                assert(term_known(p.graph, e));
                lemma_step_sound(p, Reduction::CaptureChild(c));
                lemma_step_sound(
                    with_step(p, Reduction::CaptureChild(c)),
                    Reduction::Visit(e, c.reject_constant_index),
                );
            } else {
                lemma_step_sound(p, Reduction::CheckFormPredicate(c.node));
                lemma_step_sound(p, Reduction::DiscardUniqueValue(c.node));
                lemma_step_sound(p, Reduction::CaptureFold);
                lemma_result_sound(p, Edge::Original(c.node));
            }
        },
        Reduction::CaptureChild(c) => {
            lemma_captured_sound(p, c);
        },
        Reduction::CaptureFold => {
            match form_support::popped(form, "reference argument folded result missing"@) {
                (_, Ok(v)) => {
                    match form_reduction::literal_of(v) {
                        Ok(e) => {
                            lemma_result_sound(p, e);
                        },
                        Err(_) => {},
                    }
                },
                _ => {},
            }
        },
        Reduction::DiscardUniqueValue(node) => {
            lemma_result_sound(p, Edge::Original(node));
        },
        Reduction::CaptureRoot(index) => {
            if p.results.len() > 0 {
                let q = turned(program, form, p, t).1;
                assert forall|i: int| 0 <= i < q.results.len() implies term_known(
                    p.graph,
                    #[trigger] q.results[i],
                ) by {
                    assert(q.results[i] == p.results[i]);
                }
                assert forall|i: int| 0 <= i < p.graph.edges.len() implies terms_known(
                    p.graph,
                    #[trigger] q.graph.edges[i],
                ) && q.graph.edges[i].len() == p.graph.edges[i].len() by {
                    assert(terms_known(p.graph, p.graph.edges[i]));
                }
                lemma_same_shape(p, q);
            }
        },
        Reduction::Publish => {
            let q = Pending { preparing: false, ..p };
            assert forall|i: int| 0 <= i < q.tasks.len() implies task_known(
                q.graph,
                #[trigger] q.tasks[i],
            ) by {
                assert(task_known(p.graph, p.tasks[i]));
            }
        },
        _ => {},
    }
}

} // verus!
